//! Breakend records of a tab-separated variant file: classification of each
//! breakend by orientation, pairing of mates within a positional tolerance,
//! and the relation between the two ends of a pair.
pub mod text;
pub mod grammar;
pub mod classify;
pub mod matcher;
pub mod info;
pub mod record;
pub mod validate;
pub mod vcf;

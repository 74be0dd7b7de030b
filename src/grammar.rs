//! The alternate-allele notation of a breakend: its orientation pattern and
//! the locus of its mate.
use vstd::prelude::*;
use crate::text::{chars_of, i32_text_value, parse_i32, split_by, string_of, views};

verus! {

#[verifier::external_type_specification]
#[verifier::external_body]
pub struct ExRegex(regex::Regex);

/// How the base and the bracketed mate locus are arranged in the notation.
#[derive(Clone, Copy, Debug, PartialEq, Eq, Structural)]
pub enum BreakendPattern {
    /// `t[p[`
    BaseThenOpenBracket,
    /// `t]p]`
    BaseThenCloseBracket,
    /// `[p[t`
    OpenBracketThenBase,
    /// `]p]t`
    CloseBracketThenBase,
    /// Any other shape.
    Unrecognized,
}

/// The base symbols a breakend may carry: the four nucleotides and `N`.
pub open spec fn is_base(c: char) -> bool {
    c == 'A' || c == 'T' || c == 'C' || c == 'G' || c == 'N'
}

/// The pattern of a notation, read from its first two and last two characters.
/// The leading-base forms are tried before the trailing-base ones.
pub open spec fn pattern_of(alt: Seq<char>) -> BreakendPattern {
    if alt.len() < 2 {
        BreakendPattern::Unrecognized
    } else if is_base(alt[0]) && alt[1] == '[' {
        BreakendPattern::BaseThenOpenBracket
    } else if is_base(alt[0]) && alt[1] == ']' {
        BreakendPattern::BaseThenCloseBracket
    } else if is_base(alt.last()) && alt[alt.len() - 2] == '[' {
        BreakendPattern::OpenBracketThenBase
    } else if is_base(alt.last()) && alt[alt.len() - 2] == ']' {
        BreakendPattern::CloseBracketThenBase
    } else {
        BreakendPattern::Unrecognized
    }
}

fn base_symbol(c: char) -> (r: bool)
    ensures
        r == is_base(c),
{
    c == 'A' || c == 'T' || c == 'C' || c == 'G' || c == 'N'
}

/// The orientation pattern of a breakend's alternate-allele text.
pub fn get_bnd_pattern(alt: &str) -> (r: BreakendPattern)
    ensures
        r == pattern_of(alt@),
{
    let cs = chars_of(alt);
    let n = cs.len();
    if n < 2 {
        BreakendPattern::Unrecognized
    } else if base_symbol(cs[0]) && cs[1] == '[' {
        BreakendPattern::BaseThenOpenBracket
    } else if base_symbol(cs[0]) && cs[1] == ']' {
        BreakendPattern::BaseThenCloseBracket
    } else if base_symbol(cs[n - 1]) && cs[n - 2] == '[' {
        BreakendPattern::OpenBracketThenBase
    } else if base_symbol(cs[n - 1]) && cs[n - 2] == ']' {
        BreakendPattern::CloseBracketThenBase
    } else {
        BreakendPattern::Unrecognized
    }
}

/// The characters that delimit the parts of a breakend notation.
pub open spec fn is_breakend_delimiter() -> spec_fn(char) -> bool {
    |c: char| c == '[' || c == ']' || c == ':'
}

/// The mate locus written in a notation: the text splits at the delimiters
/// into exactly four pieces, the second names the chromosome and the third
/// is a 32-bit integer, the position.
pub open spec fn locus_of(alt: Seq<char>) -> Option<(Seq<char>, i32)> {
    let pieces = split_by(alt, is_breakend_delimiter());
    if pieces.len() == 4 {
        match i32_text_value(pieces[2]) {
            Some(p) => Some((pieces[1], p)),
            None => None,
        }
    } else {
        None
    }
}

/// A chromosome and a position on it.
pub struct MateLocus {
    pub chrom: String,
    pub pos: i32,
}

impl MateLocus {
    pub open spec fn view(&self) -> (Seq<char>, i32) {
        (self.chrom@, self.pos)
    }
}

/// Reads breakend notation. Holds the compiled delimiter pattern, made once
/// and reused for every record.
pub struct BreakendGrammar {
    delimiters: regex::Regex,
}

/// Relies on regex::Regex::new: compiles the character class of the three
/// breakend delimiters, a fixed pattern that always compiles.
#[verifier::external_body]
fn compile_delimiters() -> (r: regex::Regex) {
    regex::Regex::new(r"[\[\]:]").unwrap()
}

impl BreakendGrammar {
    pub fn new() -> (r: BreakendGrammar) {
        BreakendGrammar { delimiters: compile_delimiters() }
    }

    /// Relies on regex::Regex::split with the pattern that `new` compiled:
    /// each match is a single `[`, `]` or `:`, and the pieces are the text
    /// between matches, with an empty piece beside a match at either end or
    /// between two adjacent ones. The field is private and `new` is the only
    /// place that sets it.
    #[verifier::external_body]
    fn split_delimited(&self, alt: &str) -> (r: Vec<Vec<char>>)
        ensures
            views(r@) == split_by(alt@, is_breakend_delimiter()),
    {
        self.delimiters.split(alt).map(|t| t.chars().collect()).collect()
    }

    /// The mate locus of a breakend's alternate-allele text, or `None` where
    /// the notation is malformed.
    pub fn get_alt_chrom_pos(&self, alt: &str) -> (r: Option<MateLocus>)
        ensures
            match r {
                Some(l) => locus_of(alt@) == Some(l@),
                None => locus_of(alt@).is_none(),
            },
    {
        let pieces = self.split_delimited(alt);
        proof {
            assert(views(pieces@).len() == pieces@.len());
        }
        if pieces.len() != 4 {
            return None;
        }
        proof {
            assert(views(pieces@)[1] == pieces@[1]@);
            assert(views(pieces@)[2] == pieces@[2]@);
        }
        match parse_i32(&pieces[2]) {
            Some(p) => Some(MateLocus { chrom: string_of(&pieces[1]), pos: p }),
            None => None,
        }
    }
}

/// A notation that splits into three pieces (or any count but four) names no
/// locus; its pattern is read from its characters all the same.
pub proof fn law_no_locus_unless_four_pieces(alt: Seq<char>)
    ensures
        split_by(alt, is_breakend_delimiter()).len() != 4 ==> locus_of(alt).is_none(),
{
}

} // verus!

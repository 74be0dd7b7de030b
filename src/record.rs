//! One variant record, read from a tab-separated data line.
use vstd::prelude::*;
use crate::info::{entries_view, info_of, parse_info, InfoEntry};
use crate::text::{chars_of, contains_char, i32_text_value, is_char, parse_i32, split_by, split_on_char, string_of, views};

verus! {

/// A variant record. The INFO column is kept as its items, in order.
pub struct SVEvent {
    pub chrom: String,
    pub pos: i32,
    pub id: String,
    pub ref_allele: String,
    pub alt: String,
    pub qual: String,
    pub filter: String,
    pub info: Vec<InfoEntry>,
    pub format: String,
    pub sample: String,
}

/// The tab-separated fields of a line.
pub open spec fn fields_of(line: Seq<char>) -> Seq<Seq<char>> {
    split_by(line, is_char('\t'))
}

/// Whether an alternate-allele text is breakend notation: it holds a bracket.
pub open spec fn is_breakend_alt(alt: Seq<char>) -> bool {
    alt.contains('[') || alt.contains(']')
}

/// Whether `e` is the record that the fields `f` describe.
pub open spec fn record_from_fields(e: SVEvent, f: Seq<Seq<char>>) -> bool {
    &&& f.len() >= 10
    &&& i32_text_value(f[1]) == Some(e.pos)
    &&& e.chrom@ == f[0]
    &&& e.id@ == f[2]
    &&& e.ref_allele@ == f[3]
    &&& e.alt@ == f[4]
    &&& e.qual@ == f[5]
    &&& e.filter@ == f[6]
    &&& entries_view(e.info@) == info_of(f[7])
    &&& e.format@ == f[8]
    &&& e.sample@ == f[9]
}

impl SVEvent {
    /// A record from its columns, the INFO column given as text.
    pub fn new(
        chrom: String,
        pos: i32,
        id: String,
        ref_allele: String,
        alt: String,
        qual: String,
        filter: String,
        info: String,
        format: String,
        sample: String,
    ) -> (r: SVEvent)
        ensures
            r.chrom == chrom,
            r.pos == pos,
            r.id == id,
            r.ref_allele == ref_allele,
            r.alt == alt,
            r.qual == qual,
            r.filter == filter,
            entries_view(r.info@) == info_of(info@),
            r.format == format,
            r.sample == sample,
    {
        let items = SVEvent::parse_info(info.as_str());
        SVEvent { chrom, pos, id, ref_allele, alt, qual, filter, info: items, format, sample }
    }

    /// The items of an INFO text: split at `;`, then each at its first `=`;
    /// an item without `=` is a flag, with no value.
    pub fn parse_info(info: &str) -> (r: Vec<InfoEntry>)
        ensures
            entries_view(r@) == info_of(info@),
    {
        parse_info(info)
    }

    /// Whether the record is a breakend: its alternate allele holds a bracket.
    pub fn is_bnd(&self) -> (r: bool)
        ensures
            r == is_breakend_alt(self.alt@),
    {
        let cs = chars_of(self.alt.as_str());
        contains_char(&cs, '[') || contains_char(&cs, ']')
    }

    /// The record that a data line describes, or `None` where it has fewer
    /// than ten fields or its position is not a 32-bit integer.
    pub fn from_line(line: &str) -> (r: Option<SVEvent>)
        ensures
            match r {
                Some(e) => record_from_fields(e, fields_of(line@)),
                None => fields_of(line@).len() < 10 || i32_text_value(fields_of(line@)[1]).is_none(),
            },
    {
        let cs = chars_of(line);
        let f = split_on_char(&cs, '\t');
        proof {
            assert(views(f@).len() == f@.len());
        }
        if f.len() < 10 {
            return None;
        }
        proof {
            assert forall|k: int| 0 <= k < 10 implies views(f@)[k] == (#[trigger] f@[k])@ by {}
        }
        let pos = match parse_i32(&f[1]) {
            Some(p) => p,
            None => return None,
        };
        let info = string_of(&f[7]);
        Some(SVEvent::new(
            string_of(&f[0]),
            pos,
            string_of(&f[2]),
            string_of(&f[3]),
            string_of(&f[4]),
            string_of(&f[5]),
            string_of(&f[6]),
            info,
            string_of(&f[8]),
            string_of(&f[9]),
        ))
    }
}

} // verus!

//! Structural checks on the lines of a variant file, made before any record
//! is read.
use vstd::prelude::*;
use crate::record::fields_of;
use crate::text::{chars_of, float_text, i32_text_value, is_float_text, parse_i32, split_on_char, string_of, views};

verus! {

/// Why a file was refused.
#[derive(Debug, PartialEq, Eq)]
pub enum ValidationError {
    /// No line starts with `#`.
    MissingHeader,
    /// A data line has fewer than ten fields; holds how many it has.
    FieldCountError(usize),
    /// The position field of a data line is not an integer; holds the field.
    NonNumericPosition(String),
    /// The quality field of a data line is neither `.` nor a number; holds the field.
    NonNumericQuality(String),
    /// A data line holds whitespace other than the tab between fields.
    IllegalWhitespace,
}

/// The texts of a sequence of lines.
pub open spec fn lines_view(lines: Seq<String>) -> Seq<Seq<char>> {
    lines.map_values(|l: String| l@)
}

pub open spec fn is_header(line: Seq<char>) -> bool {
    line.len() > 0 && line[0] == '#'
}

/// Whitespace that a data line may not hold: all ASCII whitespace but the tab.
pub open spec fn is_illegal_space(c: char) -> bool {
    c == ' ' || c == '\n' || c == '\r' || c == '\x0B' || c == '\x0C'
}

pub open spec fn has_illegal_space(line: Seq<char>) -> bool {
    exists|k: int| 0 <= k < line.len() && is_illegal_space(#[trigger] line[k])
}

pub open spec fn is_quality_text(q: Seq<char>) -> bool {
    q == seq!['.'] || is_float_text(q)
}

/// Whether a line passes: a header, or a data line with no illegal
/// whitespace, at least ten fields, an integer position and a quality that
/// is `.` or a number.
pub open spec fn line_ok(line: Seq<char>) -> bool {
    let f = fields_of(line);
    is_header(line) || (!has_illegal_space(line) && f.len() >= 10 && i32_text_value(f[1]).is_some()
        && is_quality_text(f[5]))
}

/// Whether `e` is what is wrong with `line`, the checks taken in order.
pub open spec fn line_fault(e: ValidationError, line: Seq<char>) -> bool {
    let f = fields_of(line);
    !is_header(line) && match e {
        ValidationError::IllegalWhitespace => has_illegal_space(line),
        ValidationError::FieldCountError(n) => !has_illegal_space(line) && f.len() < 10 && n == f.len(),
        ValidationError::NonNumericPosition(v) => !has_illegal_space(line) && f.len() >= 10
            && i32_text_value(f[1]).is_none() && v@ == f[1],
        ValidationError::NonNumericQuality(v) => !has_illegal_space(line) && f.len() >= 10
            && i32_text_value(f[1]).is_some() && !is_quality_text(f[5]) && v@ == f[5],
        ValidationError::MissingHeader => false,
    }
}

/// The outcome of checking `lines`: the fault of the first line that fails;
/// where none fails, `MissingHeader` unless some line is a header.
pub open spec fn validation_result(lines: Seq<Seq<char>>, r: Result<(), ValidationError>) -> bool {
    match r {
        Ok(()) => (forall|i: int| 0 <= i < lines.len() ==> line_ok(#[trigger] lines[i])) && exists|i: int|
            0 <= i < lines.len() && is_header(#[trigger] lines[i]),
        Err(ValidationError::MissingHeader) => (forall|i: int| 0 <= i < lines.len() ==> line_ok(#[trigger] lines[i]))
            && forall|i: int| 0 <= i < lines.len() ==> !is_header(#[trigger] lines[i]),
        Err(e) => exists|i: int|
            0 <= i < lines.len() && (forall|j: int| 0 <= j < i ==> line_ok(#[trigger] lines[j])) && line_fault(
                e,
                #[trigger] lines[i],
            ),
    }
}

fn illegal_space_in(cs: &Vec<char>) -> (r: bool)
    ensures
        r == has_illegal_space(cs@),
{
    let mut i: usize = 0;
    while i < cs.len()
        invariant
            0 <= i <= cs.len(),
            forall|k: int| 0 <= k < i ==> !is_illegal_space(#[trigger] cs@[k]),
        decreases cs.len() - i,
    {
        let c = cs[i];
        if c == ' ' || c == '\n' || c == '\r' || c == '\x0B' || c == '\x0C' {
            return true;
        }
        i += 1;
    }
    false
}

/// What is wrong with one line, or `None` where it passes.
pub fn check_line(line: &str) -> (r: Option<ValidationError>)
    ensures
        match r {
            Some(e) => line_fault(e, line@),
            None => line_ok(line@),
        },
{
    let cs = chars_of(line);
    if cs.len() > 0 && cs[0] == '#' {
        return None;
    }
    if illegal_space_in(&cs) {
        return Some(ValidationError::IllegalWhitespace);
    }
    let f = split_on_char(&cs, '\t');
    proof {
        assert(views(f@).len() == f@.len());
    }
    if f.len() < 10 {
        return Some(ValidationError::FieldCountError(f.len()));
    }
    proof {
        assert(views(f@)[1] == f@[1]@);
        assert(views(f@)[5] == f@[5]@);
    }
    if parse_i32(&f[1]).is_none() {
        return Some(ValidationError::NonNumericPosition(string_of(&f[1])));
    }
    let q = &f[5];
    let dot = q.len() == 1 && q[0] == '.';
    proof {
        if q@.len() == 1 && q@[0] == '.' {
            assert(q@ =~= seq!['.']);
        }
    }
    if !dot && !float_text(q) {
        return Some(ValidationError::NonNumericQuality(string_of(q)));
    }
    None
}

/// Checks every line of a file: stops at the first line that fails and
/// reports its fault; only after all lines have passed does a file without
/// a header fail, with `MissingHeader`.
pub fn check_vcf_format(lines: &Vec<String>) -> (r: Result<(), ValidationError>)
    ensures
        validation_result(lines_view(lines@), r),
{
    let ghost ls = lines_view(lines@);
    let mut has_header = false;
    let mut i: usize = 0;
    while i < lines.len()
        invariant
            0 <= i <= lines.len(),
            ls == lines_view(lines@),
            forall|j: int| 0 <= j < i ==> line_ok(#[trigger] ls[j]),
            has_header == exists|j: int| 0 <= j < i && is_header(#[trigger] ls[j]),
        decreases lines.len() - i,
    {
        let line = lines[i].as_str();
        proof {
            assert(ls[i as int] == line@);
        }
        match check_line(line) {
            Some(e) => {
                return Err(e);
            },
            None => {},
        }
        let cs = chars_of(line);
        if cs.len() > 0 && cs[0] == '#' {
            has_header = true;
        }
        proof {
            if !has_header {
                assert forall|j: int| 0 <= j < i + 1 implies !is_header(#[trigger] ls[j]) by {}
            }
        }
        i += 1;
    }
    if !has_header {
        return Err(ValidationError::MissingHeader);
    }
    Ok(())
}

} // verus!

//! A whole variant file: its headers, its records sorted into buckets, and
//! the mate pairs among its breakends.
use vstd::prelude::*;
use crate::classify::{classify_pair, relation_of, PairRelation};
use crate::grammar::{get_bnd_pattern, locus_of, pattern_of, BreakendGrammar};
use crate::matcher::{key_views, match_keys, pairing_of, KeyView, MatchKey};
use crate::record::{fields_of, is_breakend_alt, record_from_fields, SVEvent};
use crate::validate::{check_vcf_format, is_header, lines_view, validation_result, ValidationError};
use crate::text::chars_of;

verus! {

/// Where a record is filed.
#[derive(Clone, Copy, Debug, PartialEq, Eq, Structural)]
pub enum Bucket {
    /// A breakend whose mate lies on its own chromosome.
    SameChromosomeBreakend,
    /// Any other breakend, malformed notation included.
    CrossChromosomeBreakend,
    /// A record that is not a breakend.
    NonBreakend,
}

pub open spec fn bucket_of(chrom: Seq<char>, alt: Seq<char>) -> Bucket {
    if !is_breakend_alt(alt) {
        Bucket::NonBreakend
    } else {
        match locus_of(alt) {
            Some(l) => if l.0 == chrom {
                Bucket::SameChromosomeBreakend
            } else {
                Bucket::CrossChromosomeBreakend
            },
            None => Bucket::CrossChromosomeBreakend,
        }
    }
}

/// The header lines, in order.
pub open spec fn header_lines(ls: Seq<Seq<char>>) -> Seq<Seq<char>>
    decreases ls.len(),
{
    if ls.len() == 0 {
        Seq::<Seq<char>>::empty()
    } else if is_header(ls.last()) {
        header_lines(ls.drop_last()).push(ls.last())
    } else {
        header_lines(ls.drop_last())
    }
}

/// The data lines, in order.
pub open spec fn data_lines(ls: Seq<Seq<char>>) -> Seq<Seq<char>>
    decreases ls.len(),
{
    if ls.len() == 0 {
        Seq::<Seq<char>>::empty()
    } else if !is_header(ls.last()) {
        data_lines(ls.drop_last()).push(ls.last())
    } else {
        data_lines(ls.drop_last())
    }
}

/// The places, in order, of the records filed in bucket `b`.
pub open spec fn bucket_indices(rs: Seq<SVEvent>, b: Bucket) -> Seq<usize>
    decreases rs.len(),
{
    if rs.len() == 0 {
        Seq::<usize>::empty()
    } else if bucket_of(rs.last().chrom@, rs.last().alt@) == b {
        bucket_indices(rs.drop_last(), b).push((rs.len() - 1) as usize)
    } else {
        bucket_indices(rs.drop_last(), b)
    }
}

/// The pairing key of a record: breakends with a readable mate locus have one.
pub open spec fn key_of(e: SVEvent) -> Option<KeyView> {
    if is_breakend_alt(e.alt@) {
        match locus_of(e.alt@) {
            Some(l) => Some((e.chrom@, e.pos, l.0, l.1)),
            None => None,
        }
    } else {
        None
    }
}

pub open spec fn record_keys(es: Seq<SVEvent>) -> Seq<Option<KeyView>> {
    es.map_values(|e: SVEvent| key_of(e))
}

/// Two records, by their places, that name each other's locus, and what
/// their patterns say of the event.
#[derive(Clone, Copy, Debug, PartialEq, Eq, Structural)]
pub struct MatePair {
    pub first: usize,
    pub second: usize,
    pub relation: PairRelation,
}

pub open spec fn pair_indices(ps: Seq<MatePair>) -> Seq<(usize, usize)> {
    ps.map_values(|p: MatePair| (p.first, p.second))
}

/// The headers and records of a file, with the places of the records in each bucket.
pub struct ParsedVcf {
    pub headers: Vec<String>,
    pub records: Vec<SVEvent>,
    pub same_chr_bnd: Vec<usize>,
    pub diff_chr_bnd: Vec<usize>,
    pub non_bnd: Vec<usize>,
}

/// Whether `p` is what the lines `ls` hold.
pub open spec fn parsed_from(p: ParsedVcf, ls: Seq<Seq<char>>) -> bool {
    &&& p.headers@.map_values(|h: String| h@) == header_lines(ls)
    &&& p.records@.len() == data_lines(ls).len()
    &&& forall|k: int| 0 <= k < p.records@.len() ==> record_from_fields(
        #[trigger] p.records@[k],
        fields_of(data_lines(ls)[k]),
    )
    &&& p.same_chr_bnd@ == bucket_indices(p.records@, Bucket::SameChromosomeBreakend)
    &&& p.diff_chr_bnd@ == bucket_indices(p.records@, Bucket::CrossChromosomeBreakend)
    &&& p.non_bnd@ == bucket_indices(p.records@, Bucket::NonBreakend)
}

/// The bucket of a record.
pub fn get_bucket(grammar: &BreakendGrammar, event: &SVEvent) -> (r: Bucket)
    ensures
        r == bucket_of(event.chrom@, event.alt@),
{
    if !event.is_bnd() {
        return Bucket::NonBreakend;
    }
    match grammar.get_alt_chrom_pos(event.alt.as_str()) {
        Some(l) => if l.chrom == event.chrom {
            Bucket::SameChromosomeBreakend
        } else {
            Bucket::CrossChromosomeBreakend
        },
        None => Bucket::CrossChromosomeBreakend,
    }
}

/// Whether a record is a breakend whose mate lies on its own chromosome.
pub fn is_same_chr_bnd(grammar: &BreakendGrammar, event: &SVEvent) -> (r: bool)
    ensures
        r == (bucket_of(event.chrom@, event.alt@) == Bucket::SameChromosomeBreakend),
{
    get_bucket(grammar, event) == Bucket::SameChromosomeBreakend
}

/// Checks the lines (see `check_vcf_format`) and, where they pass, reads them:
/// header lines are kept as they are, each data line becomes a record, and
/// each record is filed in its bucket.
pub fn parse_vcf(grammar: &BreakendGrammar, lines: &Vec<String>) -> (r: Result<ParsedVcf, ValidationError>)
    ensures
        match r {
            Ok(p) => validation_result(lines_view(lines@), Ok(())) && parsed_from(p, lines_view(lines@)),
            Err(e) => validation_result(lines_view(lines@), Err(e)),
        },
{
    match check_vcf_format(lines) {
        Ok(()) => {},
        Err(e) => return Err(e),
    }
    let ghost ls = lines_view(lines@);
    let mut p = ParsedVcf {
        headers: Vec::new(),
        records: Vec::new(),
        same_chr_bnd: Vec::new(),
        diff_chr_bnd: Vec::new(),
        non_bnd: Vec::new(),
    };
    let mut i: usize = 0;
    proof {
        assert(ls.take(0) =~= Seq::<Seq<char>>::empty());
        assert(p.headers@.map_values(|h: String| h@) =~= Seq::<Seq<char>>::empty());
    }
    while i < lines.len()
        invariant
            0 <= i <= lines.len(),
            ls == lines_view(lines@),
            validation_result(ls, Ok(())),
            parsed_from(p, ls.take(i as int)),
        decreases lines.len() - i,
    {
        let line = lines[i].as_str();
        let ghost pre = ls.take(i as int);
        let ghost post = ls.take(i + 1);
        proof {
            assert(post.drop_last() =~= pre);
            assert(post.last() == line@);
            assert(crate::validate::line_ok(ls[i as int]));
        }
        let cs = chars_of(line);
        if cs.len() > 0 && cs[0] == '#' {
            let ghost old_headers = p.headers@;
            p.headers.push(line.to_string());
            proof {
                assert(p.headers@.map_values(|h: String| h@) =~= old_headers.map_values(|h: String| h@).push(line@));
            }
        } else {
            match SVEvent::from_line(line) {
                Some(e) => {
                    let b = get_bucket(grammar, &e);
                    let ghost old_records = p.records@;
                    let idx = p.records.len();
                    p.records.push(e);
                    proof {
                        assert(p.records@.drop_last() =~= old_records);
                    }
                    match b {
                        Bucket::SameChromosomeBreakend => p.same_chr_bnd.push(idx),
                        Bucket::CrossChromosomeBreakend => p.diff_chr_bnd.push(idx),
                        Bucket::NonBreakend => p.non_bnd.push(idx),
                    }
                    proof {
                        assert forall|k: int| 0 <= k < p.records@.len() implies record_from_fields(
                            #[trigger] p.records@[k],
                            fields_of(data_lines(post)[k]),
                        ) by {
                            if k < old_records.len() {
                                assert(p.records@[k] == old_records[k]);
                            }
                        }
                    }
                },
                None => {
                    proof {
                        assert(false);
                    }
                },
            }
        }
        i += 1;
    }
    proof {
        assert(ls.take(lines.len() as int) =~= ls);
    }
    Ok(p)
}

/// The pairing key of a record, or `None` for one that takes no part.
pub fn get_match_key(grammar: &BreakendGrammar, event: &SVEvent) -> (r: Option<MatchKey>)
    ensures
        match r {
            Some(k) => key_of(*event) == Some(k@),
            None => key_of(*event).is_none(),
        },
{
    if !event.is_bnd() {
        return None;
    }
    match grammar.get_alt_chrom_pos(event.alt.as_str()) {
        Some(l) => Some(MatchKey { chrom: event.chrom.clone(), pos: event.pos, mate_chrom: l.chrom, mate_pos: l.pos }),
        None => None,
    }
}

/// Pairs the breakends among `events` that name each other's locus within
/// `tolerance` (see `match_keys`), and classifies each pair by the patterns
/// of its two records. Records that are not breakends, or whose notation
/// names no locus, take no part. Returns the pairs and the places of the
/// breakends left unpaired, in input order.
pub fn find_mate_bnd_and_no_mate_events(grammar: &BreakendGrammar, events: &Vec<SVEvent>, tolerance: u32) -> (r: (
    Vec<MatePair>,
    Vec<usize>,
))
    ensures
        pairing_of(record_keys(events@), tolerance, pair_indices(r.0@), r.1@, events@.len() as int),
        forall|k: int|
            0 <= k < r.0@.len() ==> (#[trigger] r.0@[k]).first < r.0@[k].second < events@.len() && r.0@[k].relation == relation_of(
                pattern_of(events@[r.0@[k].first as int].alt@),
                pattern_of(events@[r.0@[k].second as int].alt@),
            ),
{
    let mut keys: Vec<Option<MatchKey>> = Vec::new();
    let mut i: usize = 0;
    while i < events.len()
        invariant
            0 <= i <= events.len(),
            keys@.len() == i,
            forall|j: int| 0 <= j < i ==> #[trigger] key_views(keys@)[j] == key_of(events@[j]),
        decreases events.len() - i,
    {
        let k = get_match_key(grammar, &events[i]);
        let ghost old_keys = keys@;
        keys.push(k);
        proof {
            assert forall|j: int| 0 <= j < i + 1 implies #[trigger] key_views(keys@)[j] == key_of(events@[j]) by {
                if j < i {
                    assert(keys@[j] == old_keys[j]);
                    assert(key_views(old_keys)[j] == key_of(events@[j]));
                }
            }
        }
        i += 1;
    }
    proof {
        assert(key_views(keys@) =~= record_keys(events@));
    }
    let (matched, unmatched) = match_keys(&keys, tolerance);
    let mut pairs: Vec<MatePair> = Vec::new();
    let mut m: usize = 0;
    while m < matched.len()
        invariant
            0 <= m <= matched.len(),
            pairing_of(record_keys(events@), tolerance, matched@, unmatched@, events@.len() as int),
            pair_indices(pairs@) == matched@.take(m as int),
            forall|k: int|
                0 <= k < pairs@.len() ==> (#[trigger] pairs@[k]).first < pairs@[k].second < events@.len() && pairs@[k].relation == relation_of(
                    pattern_of(events@[pairs@[k].first as int].alt@),
                    pattern_of(events@[pairs@[k].second as int].alt@),
                ),
        decreases matched.len() - m,
    {
        let (a, b) = matched[m];
        proof {
            assert(matched@[m as int].0 < matched@[m as int].1 < events@.len());
        }
        let relation = classify_pair(get_bnd_pattern(events[a].alt.as_str()), get_bnd_pattern(events[b].alt.as_str()));
        let ghost old_pairs = pairs@;
        pairs.push(MatePair { first: a, second: b, relation });
        proof {
            assert(pair_indices(pairs@) =~= pair_indices(old_pairs).push((a, b)));
            assert(matched@.take(m + 1) =~= matched@.take(m as int).push(matched@[m as int]));
            assert(pair_indices(pairs@) =~= matched@.take(m + 1));
            assert forall|k: int|
                0 <= k < pairs@.len() implies (#[trigger] pairs@[k]).first < pairs@[k].second < events@.len() && pairs@[k].relation == relation_of(
                    pattern_of(events@[pairs@[k].first as int].alt@),
                    pattern_of(events@[pairs@[k].second as int].alt@),
                ) by {
                if k < old_pairs.len() {
                    assert(pairs@[k] == old_pairs[k]);
                }
            }
        }
        m += 1;
    }
    proof {
        assert(matched@.take(matched@.len() as int) =~= matched@);
    }
    (pairs, unmatched)
}

/// A whole file read and analysed: its contents, the mate pairs among its
/// breakends, and the breakends left without a mate.
pub struct Analysis {
    pub vcf: ParsedVcf,
    pub pairs: Vec<MatePair>,
    pub unmatched: Vec<usize>,
}

/// Checks and reads the lines of a file, then pairs its breakends within
/// `tolerance` and classifies each pair.
pub fn analyze(lines: &Vec<String>, tolerance: u32) -> (r: Result<Analysis, ValidationError>)
    ensures
        match r {
            Ok(a) => {
                &&& validation_result(lines_view(lines@), Ok(()))
                &&& parsed_from(a.vcf, lines_view(lines@))
                &&& pairing_of(
                    record_keys(a.vcf.records@),
                    tolerance,
                    pair_indices(a.pairs@),
                    a.unmatched@,
                    a.vcf.records@.len() as int,
                )
                &&& forall|k: int|
                    0 <= k < a.pairs@.len() ==> (#[trigger] a.pairs@[k]).first < a.pairs@[k].second < a.vcf.records@.len() && a.pairs@[k].relation == relation_of(
                        pattern_of(a.vcf.records@[a.pairs@[k].first as int].alt@),
                        pattern_of(a.vcf.records@[a.pairs@[k].second as int].alt@),
                    )
            },
            Err(e) => validation_result(lines_view(lines@), Err(e)),
        },
{
    let grammar = BreakendGrammar::new();
    let vcf = match parse_vcf(&grammar, lines) {
        Ok(p) => p,
        Err(e) => return Err(e),
    };
    let (pairs, unmatched) = find_mate_bnd_and_no_mate_events(&grammar, &vcf.records, tolerance);
    Ok(Analysis { vcf, pairs, unmatched })
}

} // verus!

//! What two breakend orientation patterns say about the event behind them.
use vstd::prelude::*;
use crate::grammar::BreakendPattern;
use crate::text::chars_of;
use crate::grammar::BreakendPattern::{
    BaseThenCloseBracket, BaseThenOpenBracket, CloseBracketThenBase, OpenBracketThenBase,
};

verus! {

/// The relation between the two records of a pair.
#[derive(Clone, Copy, Debug, PartialEq, Eq, Structural)]
pub enum PairRelation {
    ReciprocalTranslocation,
    DuplicateReportOfSameEvent,
    IndependentEvents,
    Unclassified,
}

/// Whether `{a, b}` is the unordered pair `{x, y}`.
pub open spec fn is_pair(a: BreakendPattern, b: BreakendPattern, x: BreakendPattern, y: BreakendPattern) -> bool {
    (a == x && b == y) || (a == y && b == x)
}

pub open spec fn is_reciprocal_pair(a: BreakendPattern, b: BreakendPattern) -> bool {
    is_pair(a, b, CloseBracketThenBase, CloseBracketThenBase)
        || is_pair(a, b, BaseThenOpenBracket, BaseThenOpenBracket)
        || is_pair(a, b, BaseThenCloseBracket, OpenBracketThenBase)
}

pub open spec fn is_duplicate_pair(a: BreakendPattern, b: BreakendPattern) -> bool {
    is_pair(a, b, CloseBracketThenBase, BaseThenOpenBracket)
}

pub open spec fn is_independent_pair(a: BreakendPattern, b: BreakendPattern) -> bool {
    is_pair(a, b, BaseThenCloseBracket, CloseBracketThenBase)
        || is_pair(a, b, BaseThenCloseBracket, BaseThenCloseBracket)
        || is_pair(a, b, OpenBracketThenBase, OpenBracketThenBase)
        || is_pair(a, b, BaseThenOpenBracket, BaseThenCloseBracket)
        || is_pair(a, b, BaseThenOpenBracket, OpenBracketThenBase)
        || is_pair(a, b, CloseBracketThenBase, OpenBracketThenBase)
}

/// The relation that the tables give to an unordered pair of patterns.
pub open spec fn relation_of(a: BreakendPattern, b: BreakendPattern) -> PairRelation {
    if is_reciprocal_pair(a, b) {
        PairRelation::ReciprocalTranslocation
    } else if is_duplicate_pair(a, b) {
        PairRelation::DuplicateReportOfSameEvent
    } else if is_independent_pair(a, b) {
        PairRelation::IndependentEvents
    } else {
        PairRelation::Unclassified
    }
}

/// Whether `{a, b}` is one of the pattern pairs of a reciprocal translocation.
pub fn is_mate_pair_reciprocal_translocation(a: BreakendPattern, b: BreakendPattern) -> (r: bool)
    ensures
        r == is_reciprocal_pair(a, b),
{
    (a == CloseBracketThenBase && b == CloseBracketThenBase)
        || (a == BaseThenOpenBracket && b == BaseThenOpenBracket)
        || (a == BaseThenCloseBracket && b == OpenBracketThenBase)
        || (a == OpenBracketThenBase && b == BaseThenCloseBracket)
}

/// Whether `{a, b}` is the pattern pair of one event reported twice.
pub fn is_same_bnd_event(a: BreakendPattern, b: BreakendPattern) -> (r: bool)
    ensures
        r == is_duplicate_pair(a, b),
{
    (a == CloseBracketThenBase && b == BaseThenOpenBracket)
        || (a == BaseThenOpenBracket && b == CloseBracketThenBase)
}

fn matches_pair(a: BreakendPattern, b: BreakendPattern, x: BreakendPattern, y: BreakendPattern) -> (r: bool)
    ensures
        r == is_pair(a, b, x, y),
{
    (a == x && b == y) || (a == y && b == x)
}

/// Whether `{a, b}` is one of the pattern pairs of two independent events.
pub fn is_independent_bnd_event(a: BreakendPattern, b: BreakendPattern) -> (r: bool)
    ensures
        r == is_independent_pair(a, b),
{
    matches_pair(a, b, BaseThenCloseBracket, CloseBracketThenBase)
        || matches_pair(a, b, BaseThenCloseBracket, BaseThenCloseBracket)
        || matches_pair(a, b, OpenBracketThenBase, OpenBracketThenBase)
        || matches_pair(a, b, BaseThenOpenBracket, BaseThenCloseBracket)
        || matches_pair(a, b, BaseThenOpenBracket, OpenBracketThenBase)
        || matches_pair(a, b, CloseBracketThenBase, OpenBracketThenBase)
}

/// The relation between two breakends with patterns `a` and `b`.
pub fn classify_pair(a: BreakendPattern, b: BreakendPattern) -> (r: PairRelation)
    ensures
        r == relation_of(a, b),
{
    if is_mate_pair_reciprocal_translocation(a, b) {
        PairRelation::ReciprocalTranslocation
    } else if is_same_bnd_event(a, b) {
        PairRelation::DuplicateReportOfSameEvent
    } else if is_independent_bnd_event(a, b) {
        PairRelation::IndependentEvents
    } else {
        PairRelation::Unclassified
    }
}

/// The relation does not depend on the order of the two patterns, and every
/// pair of the reciprocal-translocation table is classified as one.
pub proof fn law_relation_order_independent(a: BreakendPattern, b: BreakendPattern)
    ensures
        relation_of(a, b) == relation_of(b, a),
        is_reciprocal_pair(a, b) ==> relation_of(a, b) == PairRelation::ReciprocalTranslocation,
        is_reciprocal_pair(a, b) ==> relation_of(b, a) == PairRelation::ReciprocalTranslocation,
{
}

/// A pair that involves an unrecognized pattern is never classified.
pub proof fn law_unrecognized_unclassified(a: BreakendPattern)
    ensures
        relation_of(a, BreakendPattern::Unrecognized) == PairRelation::Unclassified,
        relation_of(BreakendPattern::Unrecognized, a) == PairRelation::Unclassified,
{
}

/// Canonical order of two chromosome names: character by character, a proper
/// prefix first.
pub open spec fn chrom_le(a: Seq<char>, b: Seq<char>) -> bool
    decreases a.len(),
{
    if a.len() == 0 {
        true
    } else if b.len() == 0 {
        false
    } else if a[0] != b[0] {
        a[0] < b[0]
    } else {
        chrom_le(a.drop_first(), b.drop_first())
    }
}

/// Whether chromosome `a` comes no later than `b` in canonical order, so that
/// `(a, b)` is already the ordered form of the pair.
pub fn compare_chromosomes(a: &str, b: &str) -> (r: bool)
    ensures
        r == chrom_le(a@, b@),
{
    let x = chars_of(a);
    let y = chars_of(b);
    let mut i: usize = 0;
    proof {
        assert(x@.skip(0) =~= x@);
        assert(y@.skip(0) =~= y@);
    }
    while i < x.len() && i < y.len()
        invariant
            0 <= i <= x.len(),
            i <= y.len(),
            x@ == a@,
            y@ == b@,
            chrom_le(x@, y@) == chrom_le(x@.skip(i as int), y@.skip(i as int)),
        decreases x.len() - i,
    {
        proof {
            assert(x@.skip(i as int).drop_first() =~= x@.skip(i + 1));
            assert(y@.skip(i as int).drop_first() =~= y@.skip(i + 1));
            assert(x@.skip(i as int)[0] == x@[i as int]);
            assert(y@.skip(i as int)[0] == y@[i as int]);
            assert(x@.skip(i as int).len() > 0);
            assert(y@.skip(i as int).len() > 0);
        }
        if x[i] != y[i] {
            return x[i] < y[i];
        }
        i += 1;
    }
    proof {
        assert(x@.skip(i as int).len() == x.len() - i);
        assert(y@.skip(i as int).len() == y.len() - i);
    }
    i == x.len()
}

} // verus!

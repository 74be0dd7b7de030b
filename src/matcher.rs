//! Pairing of breakends that name each other's locus within a tolerance.
use vstd::prelude::*;

verus! {

/// A breakend's own locus and the locus of its mate.
pub struct MatchKey {
    pub chrom: String,
    pub pos: i32,
    pub mate_chrom: String,
    pub mate_pos: i32,
}

/// A key as plain values: chromosome, position, mate chromosome, mate position.
pub type KeyView = (Seq<char>, i32, Seq<char>, i32);

impl MatchKey {
    pub open spec fn view(&self) -> KeyView {
        (self.chrom@, self.pos, self.mate_chrom@, self.mate_pos)
    }
}

/// The keys of a sequence of records, as plain values.
pub open spec fn key_views(keys: Seq<Option<MatchKey>>) -> Seq<Option<KeyView>> {
    keys.map_values(|o: Option<MatchKey>| match o {
        Some(k) => Some(k@),
        None => None,
    })
}

pub open spec fn abs_diff(a: i32, b: i32) -> int {
    if a >= b { a - b } else { b - a }
}

/// Whether `a` names the locus of `b` and `b` the locus of `a`, each position
/// off by at most `tol`.
pub open spec fn reciprocal(a: KeyView, b: KeyView, tol: u32) -> bool {
    &&& a.0 == b.2
    &&& a.2 == b.0
    &&& abs_diff(a.1, b.3) <= tol
    &&& abs_diff(a.3, b.1) <= tol
}

/// How far apart two reciprocal keys are: the two position offsets together.
pub open spec fn gap(a: KeyView, b: KeyView) -> int {
    abs_diff(a.1, b.3) + abs_diff(a.3, b.1)
}

/// The key of record `i`; records without one take no part in pairing.
pub open spec fn key_at(keys: Seq<Option<KeyView>>, i: int) -> KeyView {
    keys[i]->0
}

pub open spec fn has_key(keys: Seq<Option<KeyView>>, i: int) -> bool {
    0 <= i < keys.len() && keys[i] is Some
}

/// Every pair joins an earlier record to a later one, both with keys, and
/// reciprocal within `tol`.
pub open spec fn pairs_reciprocal(keys: Seq<Option<KeyView>>, tol: u32, pairs: Seq<(usize, usize)>, upto: int) -> bool {
    forall|k: int|
        0 <= k < pairs.len() ==> {
            &&& (#[trigger] pairs[k]).0 < pairs[k].1 < upto
            &&& has_key(keys, pairs[k].0 as int)
            &&& has_key(keys, pairs[k].1 as int)
            &&& reciprocal(key_at(keys, pairs[k].0 as int), key_at(keys, pairs[k].1 as int), tol)
        }
}

/// The unpaired records are in input order, have keys, and no two of them
/// are reciprocal within `tol`.
pub open spec fn unpaired_apart(keys: Seq<Option<KeyView>>, tol: u32, rest: Seq<usize>, upto: int) -> bool {
    &&& forall|a: int| 0 <= a < rest.len() ==> #[trigger] rest[a] < upto && has_key(keys, rest[a] as int)
    &&& forall|a: int, b: int| 0 <= a < b < rest.len() ==> #[trigger] rest[a] < #[trigger] rest[b]
    &&& forall|a: int, b: int|
        0 <= a < b < rest.len() ==> !reciprocal(
            key_at(keys, #[trigger] rest[a] as int),
            key_at(keys, #[trigger] rest[b] as int),
            tol,
        )
}

/// No record is placed twice: not in two pairs, not twice in one, and not both
/// in a pair and among the unpaired.
pub open spec fn placed_once(pairs: Seq<(usize, usize)>, rest: Seq<usize>) -> bool {
    &&& forall|k: int, a: int|
        0 <= k < pairs.len() && 0 <= a < rest.len() ==> #[trigger] rest[a] != (#[trigger] pairs[k]).0
            && rest[a] != pairs[k].1
    &&& forall|k: int, l: int|
        0 <= k < pairs.len() && 0 <= l < pairs.len() ==> (#[trigger] pairs[k]).0 != (#[trigger] pairs[l]).1
    &&& forall|k: int, l: int|
        0 <= k < l < pairs.len() ==> (#[trigger] pairs[k]).0 != (#[trigger] pairs[l]).0
            && pairs[k].1 != pairs[l].1
}

pub open spec fn in_some_pair(pairs: Seq<(usize, usize)>, i: int) -> bool {
    exists|k: int| 0 <= k < pairs.len() && ((#[trigger] pairs[k]).0 == i || pairs[k].1 == i)
}

/// Every record with a key before `upto` is in a pair or among the unpaired.
pub open spec fn all_placed(keys: Seq<Option<KeyView>>, pairs: Seq<(usize, usize)>, rest: Seq<usize>, upto: int) -> bool {
    forall|i: int| 0 <= i < upto && #[trigger] has_key(keys, i) ==> rest.contains(i as usize) || in_some_pair(pairs, i)
}

/// The outcome of pairing the records with keys among the first `upto`.
pub open spec fn pairing_of(keys: Seq<Option<KeyView>>, tol: u32, pairs: Seq<(usize, usize)>, rest: Seq<usize>, upto: int) -> bool {
    &&& pairs_reciprocal(keys, tol, pairs, upto)
    &&& unpaired_apart(keys, tol, rest, upto)
    &&& placed_once(pairs, rest)
    &&& all_placed(keys, pairs, rest, upto)
}

fn abs_diff_exec(a: i32, b: i32) -> (r: i64)
    ensures
        r == abs_diff(a, b),
{
    if a >= b { a as i64 - b as i64 } else { b as i64 - a as i64 }
}

/// Whether two keys are reciprocal within `tol`, and how far apart they are.
fn reciprocal_gap(a: &MatchKey, b: &MatchKey, tol: u32) -> (r: Option<i64>)
    ensures
        match r {
            Some(g) => reciprocal(a@, b@, tol) && g == gap(a@, b@),
            None => !reciprocal(a@, b@, tol),
        },
{
    if a.chrom == b.mate_chrom && a.mate_chrom == b.chrom {
        let d1 = abs_diff_exec(a.pos, b.mate_pos);
        let d2 = abs_diff_exec(a.mate_pos, b.pos);
        if d1 <= tol as i64 && d2 <= tol as i64 {
            return Some(d1 + d2);
        }
    }
    None
}

/// The place in `pending` of the record that `current` pairs with: of those
/// reciprocal to it within `tol`, the nearest, and the earliest of equally
/// near ones; `None` where there is none.
pub fn best_candidate(keys: &Vec<Option<MatchKey>>, pending: &Vec<usize>, current: &MatchKey, tol: u32) -> (r: Option<usize>)
    requires
        forall|a: int| 0 <= a < pending.len() ==> has_key(key_views(keys@), #[trigger] pending@[a] as int),
    ensures
        match r {
            Some(q) => {
                &&& q < pending.len()
                &&& reciprocal(key_at(key_views(keys@), pending@[q as int] as int), current@, tol)
                &&& forall|a: int|
                    0 <= a < pending.len() && reciprocal(key_at(key_views(keys@), #[trigger] pending@[a] as int), current@, tol)
                        ==> gap(key_at(key_views(keys@), pending@[q as int] as int), current@)
                            <= gap(key_at(key_views(keys@), pending@[a] as int), current@)
                &&& forall|a: int|
                    0 <= a < q && reciprocal(key_at(key_views(keys@), #[trigger] pending@[a] as int), current@, tol)
                        ==> gap(key_at(key_views(keys@), pending@[q as int] as int), current@)
                            < gap(key_at(key_views(keys@), pending@[a] as int), current@)
            },
            None => forall|a: int|
                0 <= a < pending.len() ==> !reciprocal(key_at(key_views(keys@), #[trigger] pending@[a] as int), current@, tol),
        },
{
    let mut best: Option<usize> = None;
    let mut best_gap: i64 = 0;
    let mut i: usize = 0;
    while i < pending.len()
        invariant
            0 <= i <= pending.len(),
            forall|a: int| 0 <= a < pending.len() ==> has_key(key_views(keys@), #[trigger] pending@[a] as int),
            match best {
                Some(q) => {
                    &&& q < i
                    &&& reciprocal(key_at(key_views(keys@), pending@[q as int] as int), current@, tol)
                    &&& best_gap == gap(key_at(key_views(keys@), pending@[q as int] as int), current@)
                    &&& forall|a: int|
                        0 <= a < i && reciprocal(key_at(key_views(keys@), #[trigger] pending@[a] as int), current@, tol)
                            ==> best_gap <= gap(key_at(key_views(keys@), pending@[a] as int), current@)
                    &&& forall|a: int|
                        0 <= a < q && reciprocal(key_at(key_views(keys@), #[trigger] pending@[a] as int), current@, tol)
                            ==> best_gap < gap(key_at(key_views(keys@), pending@[a] as int), current@)
                },
                None => forall|a: int|
                    0 <= a < i ==> !reciprocal(key_at(key_views(keys@), #[trigger] pending@[a] as int), current@, tol),
            },
        decreases pending.len() - i,
    {
        let idx = pending[i];
        let key = match &keys[idx] {
            Some(k) => k,
            None => {
                // Every pending record has a key, so this arm is never taken.
                proof {
                    assert(has_key(key_views(keys@), pending@[i as int] as int));
                }
                return None;
            },
        };
        match reciprocal_gap(key, current, tol) {
            Some(g) => {
                let better = match best {
                    Some(_) => g < best_gap,
                    None => true,
                };
                if better {
                    best = Some(i);
                    best_gap = g;
                }
            },
            None => {},
        }
        i += 1;
    }
    best
}

/// Pairs the records that have keys, in input order. Each record is paired
/// with the best candidate among the earlier records still unpaired (see
/// `best_candidate`), which then leaves that pool; where there is none, it
/// joins the pool. Returns the pairs, as (earlier, later) indices, and the
/// records left unpaired, in input order.
pub fn match_keys(keys: &Vec<Option<MatchKey>>, tol: u32) -> (r: (Vec<(usize, usize)>, Vec<usize>))
    ensures
        pairing_of(key_views(keys@), tol, r.0@, r.1@, key_views(keys@).len() as int),
{
    let mut pairs: Vec<(usize, usize)> = Vec::new();
    let mut pending: Vec<usize> = Vec::new();
    let mut c: usize = 0;
    while c < keys.len()
        invariant
            0 <= c <= keys.len(),
            pairing_of(key_views(keys@), tol, pairs@, pending@, c as int),
        decreases keys.len() - c,
    {
        match &keys[c] {
            Some(current) => {
                match best_candidate(keys, &pending, current, tol) {
                    Some(q) => {
                        let ghost old_pending = pending@;
                        let ghost old_pairs = pairs@;
                        let p = pending.remove(q);
                        pairs.push((p, c));
                        proof {
                            assert(pending@ == old_pending.remove(q as int));
                            assert forall|k: int| 0 <= k < pairs@.len() implies {
                                &&& (#[trigger] pairs@[k]).0 < pairs@[k].1 < c + 1
                                &&& has_key(key_views(keys@), pairs@[k].0 as int)
                                &&& has_key(key_views(keys@), pairs@[k].1 as int)
                                &&& reciprocal(key_at(key_views(keys@), pairs@[k].0 as int), key_at(key_views(keys@), pairs@[k].1 as int), tol)
                            } by {
                                if k < old_pairs.len() {
                                    assert(pairs@[k] == old_pairs[k]);
                                }
                            }
                            assert forall|a: int, b: int| 0 <= a < b < pending@.len() implies
                                #[trigger] pending@[a] < #[trigger] pending@[b]
                                && !reciprocal(key_at(key_views(keys@), pending@[a] as int), key_at(key_views(keys@), pending@[b] as int), tol) by {
                                let a0 = if a < q { a } else { a + 1 };
                                let b0 = if b < q { b } else { b + 1 };
                                assert(pending@[a] == old_pending[a0]);
                                assert(pending@[b] == old_pending[b0]);
                            }
                            assert forall|a: int| 0 <= a < pending@.len() implies #[trigger] pending@[a] < c + 1
                                && has_key(key_views(keys@), pending@[a] as int) by {
                                let a0 = if a < q { a } else { a + 1 };
                                assert(pending@[a] == old_pending[a0]);
                            }
                            assert forall|k: int, a: int|
                                0 <= k < pairs@.len() && 0 <= a < pending@.len() implies #[trigger] pending@[a] != (#[trigger] pairs@[k]).0
                                    && pending@[a] != pairs@[k].1 by {
                                let a0 = if a < q { a } else { a + 1 };
                                assert(pending@[a] == old_pending[a0]);
                                if k < old_pairs.len() {
                                    assert(pairs@[k] == old_pairs[k]);
                                } else {
                                    assert(old_pending[a0] != old_pending[q as int]);
                                }
                            }
                            assert forall|k: int, l: int|
                                0 <= k < pairs@.len() && 0 <= l < pairs@.len() implies (#[trigger] pairs@[k]).0 != (#[trigger] pairs@[l]).1 by {
                                if k < old_pairs.len() {
                                    assert(pairs@[k] == old_pairs[k]);
                                }
                                if l < old_pairs.len() {
                                    assert(pairs@[l] == old_pairs[l]);
                                }
                            }
                            assert forall|k: int, l: int|
                                0 <= k < l < pairs@.len() implies (#[trigger] pairs@[k]).0 != (#[trigger] pairs@[l]).0
                                    && pairs@[k].1 != pairs@[l].1 by {
                                assert(pairs@[k] == old_pairs[k]);
                                if l < old_pairs.len() {
                                    assert(pairs@[l] == old_pairs[l]);
                                }
                            }
                            assert forall|i: int| 0 <= i < c + 1 && #[trigger] has_key(key_views(keys@), i) implies
                                pending@.contains(i as usize) || in_some_pair(pairs@, i) by {
                                if i == c {
                                    assert(pairs@[pairs@.len() - 1].1 == i);
                                } else if old_pending.contains(i as usize) {
                                    let a0 = choose|a0: int| 0 <= a0 < old_pending.len() && old_pending[a0] == i as usize;
                                    if a0 == q {
                                        assert(pairs@[pairs@.len() - 1].0 == i);
                                    } else {
                                        let a = if a0 < q { a0 } else { a0 - 1 };
                                        assert(pending@[a] == i as usize);
                                    }
                                } else {
                                    let k = choose|k: int| 0 <= k < old_pairs.len() && ((#[trigger] old_pairs[k]).0 == i || old_pairs[k].1 == i);
                                    assert(pairs@[k] == old_pairs[k]);
                                }
                            }
                        }
                    },
                    None => {
                        let ghost old_pending = pending@;
                        pending.push(c);
                        proof {
                            assert forall|a: int| 0 <= a < pending@.len() implies #[trigger] pending@[a] < c + 1
                                && has_key(key_views(keys@), pending@[a] as int) by {
                                if a < old_pending.len() {
                                    assert(pending@[a] == old_pending[a]);
                                }
                            }
                            assert forall|a: int, b: int| 0 <= a < b < pending@.len() implies
                                #[trigger] pending@[a] < #[trigger] pending@[b]
                                && !reciprocal(key_at(key_views(keys@), pending@[a] as int), key_at(key_views(keys@), pending@[b] as int), tol) by {
                                assert(pending@[a] == old_pending[a]);
                                if b < old_pending.len() {
                                    assert(pending@[b] == old_pending[b]);
                                }
                            }
                            assert forall|k: int, a: int|
                                0 <= k < pairs@.len() && 0 <= a < pending@.len() implies #[trigger] pending@[a] != (#[trigger] pairs@[k]).0
                                    && pending@[a] != pairs@[k].1 by {
                                if a < old_pending.len() {
                                    assert(pending@[a] == old_pending[a]);
                                }
                            }
                            assert forall|i: int| 0 <= i < c + 1 && #[trigger] has_key(key_views(keys@), i) implies
                                pending@.contains(i as usize) || in_some_pair(pairs@, i) by {
                                if i == c {
                                    assert(pending@[pending@.len() - 1] == i as usize);
                                } else if old_pending.contains(i as usize) {
                                    let a0 = choose|a0: int| 0 <= a0 < old_pending.len() && old_pending[a0] == i as usize;
                                    assert(pending@[a0] == i as usize);
                                }
                            }
                        }
                    },
                }
            },
            None => {},
        }
        c += 1;
    }
    (pairs, pending)
}

/// Two records with keys end up as one pair exactly when they are reciprocal
/// within the tolerance; otherwise both stay unpaired.
pub proof fn law_two_records_pair_iff_reciprocal(
    keys: Seq<Option<KeyView>>,
    tol: u32,
    pairs: Seq<(usize, usize)>,
    rest: Seq<usize>,
)
    requires
        keys.len() == 2,
        keys[0] is Some,
        keys[1] is Some,
        pairing_of(keys, tol, pairs, rest, 2),
    ensures
        reciprocal(key_at(keys, 0), key_at(keys, 1), tol) ==> pairs == seq![(0usize, 1usize)] && rest.len() == 0,
        !reciprocal(key_at(keys, 0), key_at(keys, 1), tol) ==> pairs.len() == 0 && rest == seq![0usize, 1usize],
{
    assert(has_key(keys, 0) && has_key(keys, 1));
    assert forall|k: int| 0 <= k < pairs.len() implies pairs[k] == (0usize, 1usize) by {
        assert(pairs[k].0 < pairs[k].1 < 2);
    }
    if pairs.len() >= 2 {
        assert(pairs[0].0 != pairs[1].0);
    }
    if rest.len() >= 3 {
        assert(rest[0] < rest[1] < rest[2]);
    }
    if pairs.len() == 1 {
        assert(pairs[0] == (0usize, 1usize));
        if rest.len() > 0 {
            assert(rest[0] != pairs[0].0 && rest[0] != pairs[0].1);
            assert(rest[0] < 2);
        }
        assert(pairs =~= seq![(0usize, 1usize)]);
    } else {
        assert(!in_some_pair(pairs, 0));
        assert(!in_some_pair(pairs, 1));
        assert(rest.contains(0usize));
        assert(rest.contains(1usize));
        let a = choose|a: int| 0 <= a < rest.len() && rest[a] == 0usize;
        let b = choose|b: int| 0 <= b < rest.len() && rest[b] == 1usize;
        if a > b {
            assert(rest[b] < rest[a]);
        }
        assert(a < b);
        if rest.len() == 2 {
            assert(rest =~= seq![0usize, 1usize]);
        }
    }
}

/// A record without a key is never paired and never left among the unpaired:
/// it takes no part in pairing.
pub proof fn law_keyless_records_take_no_part(
    keys: Seq<Option<KeyView>>,
    tol: u32,
    pairs: Seq<(usize, usize)>,
    rest: Seq<usize>,
    i: usize,
)
    requires
        pairing_of(keys, tol, pairs, rest, keys.len() as int),
        0 <= i < keys.len(),
        keys[i as int] is None,
    ensures
        !rest.contains(i),
        !in_some_pair(pairs, i as int),
{
    if rest.contains(i) {
        let a = choose|a: int| 0 <= a < rest.len() && rest[a] == i;
        assert(has_key(keys, rest[a] as int));
    }
    if in_some_pair(pairs, i as int) {
        let k = choose|k: int| 0 <= k < pairs.len() && ((#[trigger] pairs[k]).0 == i || pairs[k].1 == i);
        assert(has_key(keys, pairs[k].0 as int) && has_key(keys, pairs[k].1 as int));
    }
}

} // verus!

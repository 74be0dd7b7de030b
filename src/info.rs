//! The INFO column: `;`-separated items, each `KEY=VALUE` or a bare `KEY` flag.
use vstd::prelude::*;
use crate::text::{chars_of, is_char, lemma_split_nonempty, split_by, split_on_char, string_of, views};

verus! {

/// One INFO item: its key, and its value unless it is a flag.
pub type InfoEntry = (String, Option<String>);

/// What an INFO item holds.
pub open spec fn entry_view(e: InfoEntry) -> (Seq<char>, Option<Seq<char>>) {
    (e.0@, match e.1 {
        Some(v) => Some(v@),
        None => None,
    })
}

pub open spec fn entries_view(es: Seq<InfoEntry>) -> Seq<(Seq<char>, Option<Seq<char>>)> {
    es.map_values(|e: InfoEntry| entry_view(e))
}

/// Whether `k` is the place of the first `c` in `t`.
pub open spec fn is_first(t: Seq<char>, c: char, k: int) -> bool {
    0 <= k < t.len() && t[k] == c && forall|j: int| 0 <= j < k ==> t[j] != c
}

/// An item split at its first `=`; without one, the whole item is a flag.
pub open spec fn item_of(t: Seq<char>) -> (Seq<char>, Option<Seq<char>>) {
    if exists|k: int| is_first(t, '=', k) {
        let k = choose|k: int| is_first(t, '=', k);
        (t.take(k), Some(t.skip(k + 1)))
    } else {
        (t, None)
    }
}

/// The items of an INFO text, in order.
pub open spec fn info_of(s: Seq<char>) -> Seq<(Seq<char>, Option<Seq<char>>)> {
    split_by(s, is_char(';')).map_values(|t: Seq<char>| item_of(t))
}

/// The text of one item.
pub open spec fn item_text(e: (Seq<char>, Option<Seq<char>>)) -> Seq<char> {
    match e.1 {
        Some(v) => e.0 + seq!['='] + v,
        None => e.0,
    }
}

/// Pieces joined with `;` between neighbours.
pub open spec fn join(ts: Seq<Seq<char>>) -> Seq<char>
    decreases ts.len(),
{
    if ts.len() == 0 {
        Seq::<char>::empty()
    } else if ts.len() == 1 {
        ts[0]
    } else {
        join(ts.drop_last()) + seq![';'] + ts.last()
    }
}

/// The INFO text of a sequence of items.
pub open spec fn info_text_of(es: Seq<(Seq<char>, Option<Seq<char>>)>) -> Seq<char> {
    join(es.map_values(|e: (Seq<char>, Option<Seq<char>>)| item_text(e)))
}

fn first_index(t: &Vec<char>, c: char) -> (r: Option<usize>)
    ensures
        match r {
            Some(k) => is_first(t@, c, k as int),
            None => forall|k: int| 0 <= k < t.len() ==> t@[k] != c,
        },
{
    let mut i: usize = 0;
    while i < t.len()
        invariant
            0 <= i <= t.len(),
            forall|j: int| 0 <= j < i ==> t@[j] != c,
        decreases t.len() - i,
    {
        if t[i] == c {
            return Some(i);
        }
        i += 1;
    }
    None
}

fn slice_chars(t: &Vec<char>, from: usize, to: usize) -> (r: Vec<char>)
    requires
        from <= to <= t.len(),
    ensures
        r@ == t@.subrange(from as int, to as int),
{
    let mut out: Vec<char> = Vec::new();
    let mut i: usize = from;
    while i < to
        invariant
            from <= i <= to <= t.len(),
            out@ == t@.subrange(from as int, i as int),
        decreases to - i,
    {
        out.push(t[i]);
        i += 1;
        assert(out@ =~= t@.subrange(from as int, i as int));
    }
    out
}

fn parse_item(t: &Vec<char>) -> (r: InfoEntry)
    ensures
        entry_view(r) == item_of(t@),
{
    match first_index(t, '=') {
        Some(k) => {
            proof {
                assert(is_first(t@, '=', k as int));
                let k2 = choose|k2: int| is_first(t@, '=', k2);
                assert(k2 == k as int);
            }
            let key = slice_chars(t, 0, k);
            let value = slice_chars(t, k + 1, t.len());
            proof {
                assert(t@.subrange(0, k as int) =~= t@.take(k as int));
                assert(t@.subrange(k + 1, t.len() as int) =~= t@.skip(k + 1));
            }
            (string_of(&key), Some(string_of(&value)))
        },
        None => (string_of(t), None),
    }
}

/// Reads an INFO text into its items, in order: split at `;`, then each item
/// at its first `=`. An empty text gives one flag with an empty key.
pub fn parse_info(info: &str) -> (r: Vec<InfoEntry>)
    ensures
        entries_view(r@) == info_of(info@),
{
    let cs = chars_of(info);
    let items = split_on_char(&cs, ';');
    let ghost pieces = split_by(info@, is_char(';'));
    let mut out: Vec<InfoEntry> = Vec::new();
    let mut i: usize = 0;
    while i < items.len()
        invariant
            0 <= i <= items.len(),
            views(items@) == pieces,
            pieces == split_by(info@, is_char(';')),
            entries_view(out@) == pieces.take(i as int).map_values(|t: Seq<char>| item_of(t)),
        decreases items.len() - i,
    {
        let e = parse_item(&items[i]);
        let ghost old_out = out@;
        out.push(e);
        proof {
            assert(views(items@)[i as int] == items@[i as int]@);
            assert(entries_view(out@) =~= entries_view(old_out).push(entry_view(e)));
            assert(pieces.take(i + 1).map_values(|t: Seq<char>| item_of(t)) =~= pieces.take(
                i as int,
            ).map_values(|t: Seq<char>| item_of(t)).push(item_of(pieces[i as int])));
        }
        i += 1;
    }
    proof {
        assert(pieces.take(items.len() as int) =~= pieces);
    }
    out
}

fn append_text(out: &mut Vec<char>, s: &String)
    ensures
        final(out)@ == old(out)@ + s@,
{
    let mut t = chars_of(s.as_str());
    out.append(&mut t);
}

/// The INFO text of a sequence of items: each `KEY=VALUE` or `KEY`, joined by `;`.
pub fn info_text(entries: &Vec<InfoEntry>) -> (r: String)
    ensures
        r@ == info_text_of(entries_view(entries@)),
{
    let ghost texts = entries_view(entries@).map_values(|e: (Seq<char>, Option<Seq<char>>)| item_text(e));
    let mut out: Vec<char> = Vec::new();
    let mut i: usize = 0;
    proof {
        assert(texts.take(0) =~= Seq::<Seq<char>>::empty());
    }
    while i < entries.len()
        invariant
            0 <= i <= entries.len(),
            texts == entries_view(entries@).map_values(|e: (Seq<char>, Option<Seq<char>>)| item_text(e)),
            out@ == join(texts.take(i as int)),
        decreases entries.len() - i,
    {
        let ghost before = out@;
        if i > 0 {
            out.push(';');
        }
        let e = &entries[i];
        append_text(&mut out, &e.0);
        match &e.1 {
            Some(v) => {
                out.push('=');
                append_text(&mut out, v);
            },
            None => {},
        }
        proof {
            let t = texts.take(i + 1);
            assert(t.drop_last() =~= texts.take(i as int));
            assert(t.last() == item_text(entry_view(entries@[i as int])));
            if i == 0 {
                assert(out@ =~= t[0]);
            } else {
                assert(out@ =~= join(texts.take(i as int)) + seq![';'] + t.last());
            }
        }
        i += 1;
    }
    proof {
        assert(texts.take(entries.len() as int) =~= texts);
    }
    string_of(&out)
}

proof fn lemma_join_split(s: Seq<char>)
    ensures
        join(split_by(s, is_char(';'))) == s,
    decreases s.len(),
{
    if s.len() > 0 {
        let prev = split_by(s.drop_last(), is_char(';'));
        lemma_join_split(s.drop_last());
        lemma_split_nonempty(s.drop_last(), is_char(';'));
        let sp = split_by(s, is_char(';'));
        if s.last() == ';' {
            assert(sp.drop_last() =~= prev);
            assert(s =~= s.drop_last() + seq![';'] + Seq::<char>::empty());
        } else {
            let upd = prev.update(prev.len() - 1, prev.last().push(s.last()));
            assert(sp == upd);
            if prev.len() == 1 {
                assert(s =~= prev[0].push(s.last()));
            } else {
                assert(upd.drop_last() =~= prev.drop_last());
                assert(join(prev) == join(prev.drop_last()) + seq![';'] + prev.last());
                assert(s =~= s.drop_last().push(s.last()));
                assert(s =~= join(prev.drop_last()) + seq![';'] + prev.last().push(s.last()));
            }
        }
    }
}

proof fn lemma_item_round_trip(t: Seq<char>)
    ensures
        item_text(item_of(t)) == t,
{
    if exists|k: int| is_first(t, '=', k) {
        let k = choose|k: int| is_first(t, '=', k);
        assert(t =~= t.take(k) + seq!['='] + t.skip(k + 1));
    }
}

/// Writing out the items of any INFO text gives that text back, so reading,
/// writing and reading again gives the items that the first reading gave.
pub proof fn law_info_round_trip(s: Seq<char>)
    ensures
        info_text_of(info_of(s)) == s,
        info_of(info_text_of(info_of(s))) == info_of(s),
{
    let sp = split_by(s, is_char(';'));
    let texts = info_of(s).map_values(|e: (Seq<char>, Option<Seq<char>>)| item_text(e));
    assert forall|i: int| 0 <= i < sp.len() implies texts[i] == sp[i] by {
        lemma_item_round_trip(sp[i]);
    }
    assert(texts =~= sp);
    lemma_join_split(s);
}

} // verus!

//! Character-level helpers: splitting on delimiters and reading integers.
use vstd::prelude::*;

verus! {

/// The predicate that holds of one character only.
pub open spec fn is_char(d: char) -> spec_fn(char) -> bool {
    |c: char| c == d
}

/// The pieces of `s` between the characters on which `delim` holds, in order.
/// Delimiters at either end, or next to each other, give empty pieces, and
/// the empty text gives one empty piece.
pub open spec fn split_by(s: Seq<char>, delim: spec_fn(char) -> bool) -> Seq<Seq<char>>
    decreases s.len(),
{
    if s.len() == 0 {
        seq![Seq::<char>::empty()]
    } else {
        let prev = split_by(s.drop_last(), delim);
        if delim(s.last()) {
            prev.push(Seq::<char>::empty())
        } else {
            prev.update(prev.len() - 1, prev.last().push(s.last()))
        }
    }
}

/// The texts held by a sequence of character vectors.
pub open spec fn views(v: Seq<Vec<char>>) -> Seq<Seq<char>> {
    v.map_values(|t: Vec<char>| t@)
}

pub proof fn lemma_split_nonempty(s: Seq<char>, delim: spec_fn(char) -> bool)
    ensures
        split_by(s, delim).len() >= 1,
    decreases s.len(),
{
    if s.len() > 0 {
        lemma_split_nonempty(s.drop_last(), delim);
    }
}

/// Relies on str::chars: the characters of a string, in order.
#[verifier::external_body]
pub(crate) fn chars_of(s: &str) -> (r: Vec<char>)
    ensures
        r@ == s@,
{
    s.chars().collect()
}

/// Relies on String's FromIterator<&char>: the string made of these characters.
#[verifier::external_body]
pub(crate) fn string_of(v: &Vec<char>) -> (r: String)
    ensures
        r@ == v@,
{
    v.iter().collect()
}

/// Splits `s` at each occurrence of `d`.
pub fn split_on_char(s: &Vec<char>, d: char) -> (r: Vec<Vec<char>>)
    ensures
        views(r@) == split_by(s@, is_char(d)),
{
    let mut out: Vec<Vec<char>> = Vec::new();
    let mut cur: Vec<char> = Vec::new();
    let mut i: usize = 0;
    proof {
        assert(s@.take(0) =~= Seq::<char>::empty());
        assert(views(out@).push(cur@) =~= seq![Seq::<char>::empty()]);
    }
    while i < s.len()
        invariant
            0 <= i <= s.len(),
            views(out@).push(cur@) == split_by(s@.take(i as int), is_char(d)),
        decreases s.len() - i,
    {
        let c = s[i];
        proof {
            assert(s@.take(i + 1).drop_last() =~= s@.take(i as int));
            assert(s@.take(i + 1).last() == c);
        }
        if c == d {
            let ghost old_out = out@;
            out.push(cur);
            cur = Vec::new();
            proof {
                assert(views(out@) =~= views(old_out).push(views(out@).last()));
                assert(views(out@).push(cur@) =~= views(old_out).push(views(out@).last()).push(
                    Seq::<char>::empty(),
                ));
            }
        } else {
            let ghost old_cur = cur@;
            cur.push(c);
            proof {
                let prev = views(out@).push(old_cur);
                assert(views(out@).push(cur@) =~= prev.update(prev.len() - 1, prev.last().push(c)));
            }
        }
        i += 1;
    }
    let ghost old_out = out@;
    let ghost last = cur@;
    out.push(cur);
    proof {
        assert(s@.take(s.len() as int) =~= s@);
        assert(views(out@) =~= views(old_out).push(last));
    }
    out
}

/// Whether `d` occurs in `s`.
pub fn contains_char(s: &Vec<char>, d: char) -> (r: bool)
    ensures
        r == s@.contains(d),
{
    let mut i: usize = 0;
    while i < s.len()
        invariant
            0 <= i <= s.len(),
            forall|k: int| 0 <= k < i ==> s@[k] != d,
        decreases s.len() - i,
    {
        if s[i] == d {
            return true;
        }
        i += 1;
    }
    false
}

/// Whether two character vectors hold the same text.
pub fn same_chars(a: &Vec<char>, b: &Vec<char>) -> (r: bool)
    ensures
        r == (a@ == b@),
{
    if a.len() != b.len() {
        return false;
    }
    let mut i: usize = 0;
    while i < a.len()
        invariant
            a.len() == b.len(),
            0 <= i <= a.len(),
            forall|k: int| 0 <= k < i ==> a@[k] == b@[k],
        decreases a.len() - i,
    {
        if a[i] != b[i] {
            return false;
        }
        i += 1;
    }
    assert(a@ =~= b@);
    true
}

pub open spec fn is_digit(c: char) -> bool {
    '0' <= c <= '9'
}

pub open spec fn digit_value(c: char) -> int {
    c as int - '0' as int
}

/// The value of a run of decimal digits, most significant first.
pub open spec fn digits_value(s: Seq<char>) -> int
    decreases s.len(),
{
    if s.len() == 0 {
        0
    } else {
        digits_value(s.drop_last()) * 10 + digit_value(s.last())
    }
}

pub open spec fn all_digits(s: Seq<char>) -> bool {
    forall|k: int| 0 <= k < s.len() ==> is_digit(#[trigger] s[k])
}

/// The integer written by `s`: an optional `+` or `-`, then one or more
/// decimal digits, and nothing else.
pub open spec fn int_text_value(s: Seq<char>) -> Option<int> {
    let signed = s.len() > 0 && (s[0] == '-' || s[0] == '+');
    let body = if signed { s.drop_first() } else { s };
    if body.len() > 0 && all_digits(body) {
        if s[0] == '-' { Some(-digits_value(body)) } else { Some(digits_value(body)) }
    } else {
        None
    }
}

/// The 32-bit integer written by `s`, if it is one and in range.
pub open spec fn i32_text_value(s: Seq<char>) -> Option<i32> {
    match int_text_value(s) {
        Some(v) => if i32::MIN <= v <= i32::MAX { Some(v as i32) } else { None },
        None => None,
    }
}

pub proof fn lemma_digits_value_nonneg(s: Seq<char>)
    requires
        all_digits(s),
    ensures
        digits_value(s) >= 0,
    decreases s.len(),
{
    if s.len() > 0 {
        assert(is_digit(s[s.len() - 1]));
        lemma_digits_value_nonneg(s.drop_last());
    }
}

/// One past the largest magnitude of a 32-bit integer: where reading digits stops counting.
const SATURATED: i64 = 2147483649;

/// Reads a 32-bit integer in the form `int_text_value` describes.
pub fn parse_i32(s: &Vec<char>) -> (r: Option<i32>)
    ensures
        r == i32_text_value(s@),
{
    let n = s.len();
    let neg = n > 0 && s[0] == '-';
    let start: usize = if n > 0 && (s[0] == '-' || s[0] == '+') { 1 } else { 0 };
    if start >= n {
        return None;
    }
    let ghost body = s@.skip(start as int);
    proof {
        if start == 1 {
            assert(body =~= s@.drop_first());
        } else {
            assert(body =~= s@);
        }
    }
    let mut acc: i64 = 0;
    let mut i: usize = start;
    proof {
        assert(s@.subrange(start as int, start as int) =~= Seq::<char>::empty());
    }
    while i < n
        invariant
            n == s.len(),
            start <= i <= n,
            body == s@.skip(start as int),
            body == (if start == 1 { s@.drop_first() } else { s@ }),
            (start == 1) == (s@.len() > 0 && (s@[0] == '-' || s@[0] == '+')),
            neg == (s@.len() > 0 && s@[0] == '-'),
            body.len() > 0,
            all_digits(s@.subrange(start as int, i as int)),
            0 <= acc <= SATURATED,
            acc == if digits_value(s@.subrange(start as int, i as int)) < SATURATED {
                digits_value(s@.subrange(start as int, i as int))
            } else {
                SATURATED as int
            },
        decreases n - i,
    {
        let c = s[i];
        if !('0' <= c && c <= '9') {
            proof {
                assert(body[i - start] == c);
                assert(!is_digit(body[i - start]));
                assert(!all_digits(body));
                assert(int_text_value(s@).is_none());
            }
            return None;
        }
        let ghost pre = s@.subrange(start as int, i as int);
        let ghost post = s@.subrange(start as int, i + 1);
        proof {
            assert(post.drop_last() =~= pre);
            assert(post.last() == c);
            assert(all_digits(post));
            lemma_digits_value_nonneg(pre);
        }
        let d = (c as u32 - '0' as u32) as i64;
        assert(0 <= d <= 9);
        assert(acc * 10 + d <= 2147483649 * 10 + 9) by (nonlinear_arith)
            requires
                acc <= 2147483649,
                d <= 9,
        ;
        let next: i64 = acc * 10 + d;
        acc = if next < SATURATED { next } else { SATURATED };
        proof {
            let dv = digits_value(pre);
            assert(digits_value(post) == dv * 10 + d);
            if dv >= SATURATED {
                assert(dv * 10 + d >= SATURATED) by (nonlinear_arith)
                    requires
                        dv >= 2147483649,
                        d >= 0,
                ;
            }
        }
        i += 1;
    }
    proof {
        assert(s@.subrange(start as int, n as int) =~= body);
    }
    if neg {
        if acc > 2147483648 {
            None
        } else {
            Some((0 - acc) as i32)
        }
    } else {
        if acc > 2147483647 {
            None
        } else {
            Some(acc as i32)
        }
    }
}

/// How many decimal digits run from place `i` of `s`.
pub open spec fn digit_run(s: Seq<char>, i: int) -> int
    decreases s.len() - i,
{
    if 0 <= i < s.len() && is_digit(s[i]) {
        1 + digit_run(s, i + 1)
    } else {
        0
    }
}

/// 1 where a `+` or `-` stands at place `i` of `s`, else 0.
pub open spec fn sign_len(s: Seq<char>, i: int) -> int {
    if 0 <= i < s.len() && (s[i] == '+' || s[i] == '-') { 1 } else { 0 }
}

/// The upper-case form of the letters of `inf`, `infinity` and `nan`.
pub open spec fn upper_of(w: char) -> char {
    match w {
        'a' => 'A',
        'f' => 'F',
        'i' => 'I',
        'n' => 'N',
        't' => 'T',
        'y' => 'Y',
        _ => w,
    }
}

/// Whether `c` is the letter `w` in either case.
pub open spec fn letter_matches(c: char, w: char) -> bool {
    c == w || c == upper_of(w)
}

fn upper_of_exec(w: char) -> (r: char)
    ensures
        r == upper_of(w),
{
    match w {
        'a' => 'A',
        'f' => 'F',
        'i' => 'I',
        'n' => 'N',
        't' => 'T',
        'y' => 'Y',
        _ => w,
    }
}

/// Whether `s` from place `i` to its end is the lower-case word `w`, in
/// either case letter by letter.
pub open spec fn rest_is_word(s: Seq<char>, i: int, w: Seq<char>) -> bool {
    0 <= i && s.len() - i == w.len() && forall|k: int| 0 <= k < w.len() ==> letter_matches(#[trigger] s[i + k], w[k])
}

/// Whether `s` is the text of a floating-point number: an optional sign, then
/// `inf`, `infinity` or `nan` in any case, or digits with at most one `.` and
/// at least one digit, followed by an optional exponent (`e` or `E`, an
/// optional sign and one or more digits).
pub open spec fn is_float_text(s: Seq<char>) -> bool {
    let i = sign_len(s, 0);
    if rest_is_word(s, i, seq!['i', 'n', 'f']) || rest_is_word(s, i, seq!['i', 'n', 'f', 'i', 'n', 'i', 't', 'y'])
        || rest_is_word(s, i, seq!['n', 'a', 'n']) {
        true
    } else {
        let a = digit_run(s, i);
        let j = i + a;
        let dot = j < s.len() && s[j] == '.';
        let b = if dot { digit_run(s, j + 1) } else { 0 };
        let k = if dot { j + 1 + b } else { j };
        a + b > 0 && (k == s.len() || ((s[k] == 'e' || s[k] == 'E') && digit_run(s, k + 1 + sign_len(s, k + 1)) > 0
            && k + 1 + sign_len(s, k + 1) + digit_run(s, k + 1 + sign_len(s, k + 1)) == s.len()))
    }
}

proof fn lemma_digit_run_bounds(s: Seq<char>, i: int)
    requires
        0 <= i <= s.len(),
    ensures
        0 <= digit_run(s, i) <= s.len() - i,
    decreases s.len() - i,
{
    if i < s.len() && is_digit(s[i]) {
        lemma_digit_run_bounds(s, i + 1);
    }
}

fn count_digits(s: &Vec<char>, i: usize) -> (r: usize)
    requires
        i <= s.len(),
    ensures
        r == digit_run(s@, i as int),
        i + r <= s.len(),
{
    let mut j: usize = i;
    proof {
        lemma_digit_run_bounds(s@, i as int);
    }
    while j < s.len() && '0' <= s[j] && s[j] <= '9'
        invariant
            i <= j <= s.len(),
            digit_run(s@, i as int) == (j - i) + digit_run(s@, j as int),
        decreases s.len() - j,
    {
        j += 1;
    }
    j - i
}

fn sign_at(s: &Vec<char>, i: usize) -> (r: usize)
    ensures
        r == sign_len(s@, i as int),
{
    if i < s.len() && (s[i] == '+' || s[i] == '-') { 1 } else { 0 }
}

fn rest_is(s: &Vec<char>, i: usize, w: &[char]) -> (r: bool)
    requires
        i <= s.len(),
    ensures
        r == rest_is_word(s@, i as int, w@),
{
    if s.len() - i != w.len() {
        return false;
    }
    let mut k: usize = 0;
    while k < w.len()
        invariant
            i <= s.len(),
            s.len() - i == w.len(),
            0 <= k <= w.len(),
            forall|m: int| 0 <= m < k ==> letter_matches(#[trigger] s@[i + m], w@[m]),
        decreases w.len() - k,
    {
        let c = s[i + k];
        if !(c == w[k] || c == upper_of_exec(w[k])) {
            return false;
        }
        k += 1;
    }
    true
}

/// Whether `s` is the text of a floating-point number, in the form
/// `is_float_text` describes.
pub fn float_text(s: &Vec<char>) -> (r: bool)
    ensures
        r == is_float_text(s@),
{
    let n = s.len();
    let i = sign_at(s, 0);
    if rest_is(s, i, &['i', 'n', 'f']) || rest_is(s, i, &['i', 'n', 'f', 'i', 'n', 'i', 't', 'y'])
        || rest_is(s, i, &['n', 'a', 'n']) {
        proof {
            assert(['i', 'n', 'f']@ =~= seq!['i', 'n', 'f']);
            assert(['i', 'n', 'f', 'i', 'n', 'i', 't', 'y']@ =~= seq!['i', 'n', 'f', 'i', 'n', 'i', 't', 'y']);
            assert(['n', 'a', 'n']@ =~= seq!['n', 'a', 'n']);
        }
        return true;
    }
    proof {
        assert(['i', 'n', 'f']@ =~= seq!['i', 'n', 'f']);
        assert(['i', 'n', 'f', 'i', 'n', 'i', 't', 'y']@ =~= seq!['i', 'n', 'f', 'i', 'n', 'i', 't', 'y']);
        assert(['n', 'a', 'n']@ =~= seq!['n', 'a', 'n']);
    }
    let a = count_digits(s, i);
    let j = i + a;
    let dot = j < n && s[j] == '.';
    let b = if dot { count_digits(s, j + 1) } else { 0 };
    let k = if dot { j + 1 + b } else { j };
    if a + b == 0 {
        return false;
    }
    if k == n {
        return true;
    }
    if !(s[k] == 'e' || s[k] == 'E') {
        return false;
    }
    let m = k + 1 + sign_at(s, k + 1);
    if m > n {
        return false;
    }
    let c = count_digits(s, m);
    c > 0 && m + c == n
}

} // verus!

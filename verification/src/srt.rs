//! Splitting helpers with the semantics of `str::split` and `str::lines`,
//! and decimal-number reading, stated over `Seq<char>`.
use vstd::prelude::*;
use crate::text::{occurs_at, matches_at};

verus! {

broadcast use vstd::seq_lib::group_seq_properties;

// ── Splitting ────────────────────────────────────────────────────────────────

/// First position at or after `k` where `p` occurs in `s`, or -1.
pub open spec fn find_from(s: Seq<char>, p: Seq<char>, k: int) -> int
    decreases s.len() + 1 - k,
{
    if k < 0 || k + p.len() > s.len() {
        -1
    } else if occurs_at(s, p, k) {
        k
    } else {
        find_from(s, p, k + 1)
    }
}

/// `s.split(p)` for a non-empty pattern: the pieces between the
/// left-to-right, non-overlapping occurrences of `p`.
pub open spec fn split_seq(s: Seq<char>, p: Seq<char>) -> Seq<Seq<char>>
    decreases s.len(),
{
    if p.len() == 0 {
        seq![s]
    } else {
        let k = find_from(s, p, 0);
        if k < 0 {
            seq![s]
        } else {
            proof {
                lemma_find_from(s, p, 0);
            }
            seq![s.take(k)] + split_seq(s.skip(k + p.len()), p)
        }
    }
}

pub proof fn lemma_find_from(s: Seq<char>, p: Seq<char>, k: int)
    requires
        0 <= k,
    ensures
        find_from(s, p, k) == -1 || (k <= find_from(s, p, k) && find_from(s, p, k) + p.len()
            <= s.len() && occurs_at(s, p, find_from(s, p, k))),
        forall|j: int| k <= j < find_from(s, p, k) ==> !occurs_at(s, p, j),
        find_from(s, p, k) == -1 ==> forall|j: int| k <= j ==> !occurs_at(s, p, j),
    decreases s.len() + 1 - k,
{
    if k + p.len() <= s.len() && !occurs_at(s, p, k) {
        lemma_find_from(s, p, k + 1);
    }
}

/// First occurrence of `p` in `v` at or after `k`, if any.
pub fn find_chars(v: &Vec<char>, p: &Vec<char>, k: usize) -> (r: Option<usize>)
    requires
        k <= v.len(),
    ensures
        match r {
            Some(j) => j == find_from(v@, p@, k as int),
            None => find_from(v@, p@, k as int) == -1,
        },
{
    let n: usize = v.len();
    let mut j: usize = k;
    while j <= n
        invariant
            k <= j,
            n == v.len(),
            j <= n + 1,
            find_from(v@, p@, k as int) == find_from(v@, p@, j as int),
        decreases n + 1 - j,
    {
        if p.len() > n - j {
            return None;
        }
        if matches_at(v, p, j) {
            return Some(j);
        }
        if j == n {
            assert(v@.subrange(n as int, n as int) =~= p@);
            return None;
        }
        j = j + 1;
    }
    None
}

/// The pieces of `v[lo..]` split on the non-empty pattern `p`.
pub fn split_chars(v: &Vec<char>, lo: usize, p: &Vec<char>) -> (r: Vec<Vec<char>>)
    requires
        lo <= v.len(),
        p.len() > 0,
    ensures
        r.deep_view() == split_seq(v@.skip(lo as int), p@),
    decreases v.len() - lo,
{
    let ghost s = v@.skip(lo as int);
    match find_chars(v, p, lo) {
        None => {
            proof {
                lemma_find_from(v@, p@, lo as int);
                lemma_find_shift_none(v@, p@, lo as int);
            }
            let piece = crate::text::sub_chars(v, lo, v.len());
            proof {
                lemma_char_vec_deep_view(piece);
            }
            assert(piece@ =~= s);
            let r = vec![piece];
            assert(r.deep_view() =~= seq![s]);
            r
        },
        Some(j) => {
            proof {
                lemma_find_from(v@, p@, lo as int);
                lemma_find_shift_some(v@, p@, lo as int);
            }
            let piece = crate::text::sub_chars(v, lo, j);
            proof {
                lemma_char_vec_deep_view(piece);
            }
            assert(piece@ =~= s.take(j - lo));
            let next: usize = j + p.len();
            let rest = split_chars(v, next, p);
            let mut r: Vec<Vec<char>> = vec![piece];
            let mut rest = rest;
            r.append(&mut rest);
            assert(v@.skip(next as int) =~= s.skip((j - lo) + p@.len()));
            assert(r.deep_view() =~= seq![s.take(j - lo)] + split_seq(
                s.skip((j - lo) + p@.len()),
                p@,
            ));
            r
        },
    }
}

pub proof fn lemma_char_vec_deep_view(v: Vec<char>)
    ensures
        v.deep_view() == v@,
{
    assert(v.deep_view() =~= v@);
}

proof fn lemma_occurs_shift(s: Seq<char>, p: Seq<char>, lo: int, j: int)
    requires
        0 <= lo <= s.len(),
        0 <= j,
    ensures
        occurs_at(s.skip(lo), p, j) == occurs_at(s, p, j + lo),
{
    if occurs_at(s.skip(lo), p, j) {
        assert(s.subrange(j + lo, j + lo + p.len()) =~= s.skip(lo).subrange(j, j + p.len()));
    }
    if occurs_at(s, p, j + lo) {
        assert(s.subrange(j + lo, j + lo + p.len()) =~= s.skip(lo).subrange(j, j + p.len()));
    }
}

proof fn lemma_find_shift_some(s: Seq<char>, p: Seq<char>, lo: int)
    requires
        0 <= lo <= s.len(),
        find_from(s, p, lo) >= 0,
        lo <= find_from(s, p, lo),
        find_from(s, p, lo) + p.len() <= s.len(),
        occurs_at(s, p, find_from(s, p, lo)),
        forall|j: int| lo <= j < find_from(s, p, lo) ==> !occurs_at(s, p, j),
    ensures
        find_from(s.skip(lo), p, 0) == find_from(s, p, lo) - lo,
{
    let k = find_from(s, p, lo) - lo;
    assert forall|j: int| 0 <= j < k implies !occurs_at(s.skip(lo), p, j) by {
        lemma_occurs_shift(s, p, lo, j);
    }
    lemma_occurs_shift(s, p, lo, k);
    lemma_find_first(s.skip(lo), p, 0, k);
}

proof fn lemma_find_shift_none(s: Seq<char>, p: Seq<char>, lo: int)
    requires
        0 <= lo <= s.len(),
        forall|j: int| lo <= j ==> !occurs_at(s, p, j),
    ensures
        find_from(s.skip(lo), p, 0) == -1,
{
    assert forall|j: int| 0 <= j implies !occurs_at(s.skip(lo), p, j) by {
        lemma_occurs_shift(s, p, lo, j);
    }
    lemma_find_none(s.skip(lo), p, 0);
}

proof fn lemma_find_first(s: Seq<char>, p: Seq<char>, k: int, m: int)
    requires
        0 <= k <= m,
        occurs_at(s, p, m),
        forall|j: int| k <= j < m ==> !occurs_at(s, p, j),
    ensures
        find_from(s, p, k) == m,
    decreases m - k,
{
    if k < m {
        lemma_find_first(s, p, k + 1, m);
    }
}

proof fn lemma_find_none(s: Seq<char>, p: Seq<char>, k: int)
    requires
        0 <= k,
        forall|j: int| k <= j ==> !occurs_at(s, p, j),
    ensures
        find_from(s, p, k) == -1,
    decreases s.len() + 1 - k,
{
    if k + p.len() <= s.len() {
        lemma_find_none(s, p, k + 1);
    }
}

/// `str::lines`: the pieces between `\n`s, without a final empty piece after
/// a closing `\n`, each line ended by `\n` losing one `\r` before it.
pub open spec fn lines_of(s: Seq<char>) -> Seq<Seq<char>> {
    let parts = split_seq(s, seq!['\n']);
    if s.len() == 0 {
        seq![]
    } else if s.last() == '\n' {
        parts.drop_last().map_values(|l: Seq<char>| strip_cr(l))
    } else {
        parts.drop_last().map_values(|l: Seq<char>| strip_cr(l)).push(parts.last())
    }
}

/// A line without its trailing `\r`, if any.
pub open spec fn strip_cr(l: Seq<char>) -> Seq<char> {
    if l.len() > 0 && l.last() == '\r' {
        l.drop_last()
    } else {
        l
    }
}

proof fn lemma_split_nonempty(s: Seq<char>, p: Seq<char>)
    ensures
        split_seq(s, p).len() >= 1,
    decreases s.len(),
{
    if p.len() > 0 {
        let k = find_from(s, p, 0);
        if k >= 0 {
            lemma_find_from(s, p, 0);
            lemma_split_nonempty(s.skip(k + p.len()), p);
        }
    }
}

fn strip_cr_vec(l: &Vec<char>) -> (r: Vec<char>)
    ensures
        r@ == strip_cr(l@),
{
    let n: usize = l.len();
    if n > 0 && l[n - 1] == '\r' {
        crate::text::sub_chars(l, 0, n - 1)
    } else {
        crate::text::sub_chars(l, 0, n)
    }
}

/// The lines of `v` (`str::lines`).
pub fn lines_chars(v: &Vec<char>) -> (r: Vec<Vec<char>>)
    ensures
        r.deep_view() == lines_of(v@),
{
    let n: usize = v.len();
    if n == 0 {
        let r: Vec<Vec<char>> = Vec::new();
        assert(r.deep_view() =~= lines_of(v@));
        return r;
    }
    let nl: Vec<char> = vec!['\n'];
    let parts = split_chars(v, 0, &nl);
    assert(v@.skip(0) =~= v@);
    assert(nl@ =~= seq!['\n']);
    proof {
        lemma_split_nonempty(v@, nl@);
    }
    let ghost pv = parts.deep_view();
    let m: usize = parts.len();
    let mut r: Vec<Vec<char>> = Vec::new();
    let mut i: usize = 0;
    while i + 1 < m
        invariant
            1 <= m == parts.len(),
            pv == parts.deep_view(),
            i + 1 <= m,
            r.deep_view() == pv.drop_last().map_values(|l: Seq<char>| strip_cr(l)).take(i as int),
        decreases m - i,
    {
        let line = strip_cr_vec(&parts[i]);
        proof {
            lemma_char_vec_deep_view(line);
            lemma_char_vec_deep_view(parts@[i as int]);
            assert(pv[i as int] == parts@[i as int].deep_view());
        }
        let ghost before = r.deep_view();
        r.push(line);
        assert(r.deep_view() =~= before.push(strip_cr(pv[i as int])));
        i = i + 1;
        assert(r.deep_view() =~= pv.drop_last().map_values(|l: Seq<char>| strip_cr(l)).take(
            i as int,
        ));
    }
    assert(pv.drop_last().map_values(|l: Seq<char>| strip_cr(l)).take(i as int)
        =~= pv.drop_last().map_values(|l: Seq<char>| strip_cr(l)));
    if v[n - 1] != '\n' {
        let last = crate::text::sub_chars(&parts[m - 1], 0, parts[m - 1].len());
        proof {
            lemma_char_vec_deep_view(last);
            lemma_char_vec_deep_view(parts@[m - 1]);
            assert(pv[m - 1] == parts@[m - 1].deep_view());
            assert(parts@[m - 1]@.subrange(0, parts@[m - 1]@.len() as int) =~= parts@[m - 1]@);
        }
        let ghost before = r.deep_view();
        r.push(last);
        assert(r.deep_view() =~= before.push(pv.last()));
    }
    r
}

// ── Decimal numbers ──────────────────────────────────────────────────────────

pub open spec fn is_digit(c: char) -> bool {
    '0' <= c <= '9'
}

pub open spec fn digit_value(c: char) -> int {
    (c as u32) - 48
}

/// Value of a string of digits.
pub open spec fn digits_value(s: Seq<char>) -> int
    decreases s.len(),
{
    if s.len() == 0 {
        0
    } else {
        digits_value(s.drop_last()) * 10 + digit_value(s.last())
    }
}

pub open spec fn all_digits(s: Seq<char>) -> bool {
    forall|i: int| 0 <= i < s.len() ==> is_digit(#[trigger] s[i])
}


/// `s` without a leading sign.
pub open spec fn micros_body(s: Seq<char>) -> Seq<char> {
    if s.len() > 0 && (s[0] == '+' || s[0] == '-') {
        s.drop_first()
    } else {
        s
    }
}

proof fn lemma_digits_value_mono(s: Seq<char>)
    requires
        all_digits(s),
    ensures
        digits_value(s) >= 0,
    decreases s.len(),
{
    if s.len() > 0 {
        lemma_digits_value_mono(s.drop_last());
    }
}

/// Value of `v[lo..hi]` as digits, or `None` when a character is not a
/// digit or the value exceeds `limit`.
pub fn read_digits(v: &Vec<char>, lo: usize, hi: usize, limit: i128) -> (r: Option<i128>)
    requires
        lo <= hi <= v.len(),
        0 <= limit <= 10_000_000_000_000_000_000,
    ensures
        match r {
            Some(x) => all_digits(v@.subrange(lo as int, hi as int)) && x == digits_value(
                v@.subrange(lo as int, hi as int),
            ) && 0 <= x <= limit,
            None => !all_digits(v@.subrange(lo as int, hi as int)) || digits_value(
                v@.subrange(lo as int, hi as int),
            ) > limit,
        },
{
    let mut x: i128 = 0;
    let mut i: usize = lo;
    while i < hi
        invariant
            lo <= i <= hi <= v.len(),
            0 <= limit <= 10_000_000_000_000_000_000,
            all_digits(v@.subrange(lo as int, i as int)),
            x == digits_value(v@.subrange(lo as int, i as int)),
            0 <= x <= limit,
        decreases hi - i,
    {
        let ghost pre = v@.subrange(lo as int, i as int);
        let ghost next = v@.subrange(lo as int, i + 1);
        assert(next.drop_last() =~= pre);
        assert(next.last() == v@[i as int]);
        let c: char = v[i];
        if !('0' <= c && c <= '9') {
            assert(v@.subrange(lo as int, hi as int)[i - lo] == c);
            proof {
                lemma_digits_prefix_not_all(v@.subrange(lo as int, hi as int), i - lo);
            }
            return None;
        }
        let d: i128 = (c as u32 - 48) as i128;
        x = x * 10 + d;
        i = i + 1;
        if x > limit {
            proof {
                assert(v@.subrange(lo as int, hi as int).take(i - lo) =~= next);
                lemma_digits_prefix_grows(v@.subrange(lo as int, hi as int), i - lo);
            }
            return None;
        }
    }
    Some(x)
}

proof fn lemma_digits_prefix_not_all(s: Seq<char>, k: int)
    requires
        0 <= k < s.len(),
        !is_digit(s[k]),
    ensures
        !all_digits(s),
{
}

/// A longer digit string is worth at least as much as its prefix.
proof fn lemma_digits_prefix_grows(s: Seq<char>, k: int)
    requires
        0 <= k <= s.len(),
    ensures
        all_digits(s) ==> digits_value(s) >= digits_value(s.take(k)),
    decreases s.len() - k,
{
    if k < s.len() && all_digits(s) {
        lemma_digits_prefix_grows(s, k + 1);
        assert(s.take(k + 1).drop_last() =~= s.take(k));
        assert(all_digits(s.take(k)));
        lemma_digits_value_mono(s.take(k));
    }
}


/// Whether every character of `v[lo..hi]` is a digit.
pub fn all_digits_in(v: &Vec<char>, lo: usize, hi: usize) -> (b: bool)
    requires
        lo <= hi <= v.len(),
    ensures
        b == all_digits(v@.subrange(lo as int, hi as int)),
{
    let mut i: usize = lo;
    while i < hi
        invariant
            lo <= i <= hi <= v.len(),
            all_digits(v@.subrange(lo as int, i as int)),
        decreases hi - i,
    {
        if !('0' <= v[i] && v[i] <= '9') {
            assert(v@.subrange(lo as int, hi as int)[i - lo] == v@[i as int]);
            return false;
        }
        i = i + 1;
        assert forall|k: int| 0 <= k < i - lo implies is_digit(
            #[trigger] v@.subrange(lo as int, i as int)[k],
        ) by {
            assert(v@.subrange(lo as int, i as int)[k] == v@[lo + k]);
            if k < i - 1 - lo {
                assert(v@.subrange(lo as int, i - 1)[k] == v@[lo + k]);
            }
        }
    }
    true
}

pub open spec fn pow10(k: nat) -> int
    decreases k,
{
    if k == 0 {
        1
    } else {
        10 * pow10((k - 1) as nat)
    }
}

// ── Floating-point literals ──────────────────────────────────────────────────

/// Largest magnitude a number is read with, in millionths (10^30): larger
/// values and infinities are read as this bound.
pub const MAX_MICROS: i128 = 1_000_000_000_000_000_000_000_000_000_000;

/// `c` is the lowercase ASCII letter `l` or its uppercase form.
pub open spec fn same_letter(c: char, l: char) -> bool {
    c == l || (c as u32) + 32 == (l as u32)
}

/// `s` spells the lowercase word `w`, its letters in either case.
pub open spec fn is_word(s: Seq<char>, w: Seq<char>) -> bool {
    s.len() == w.len() && forall|i: int| 0 <= i < s.len() ==> same_letter(#[trigger] s[i], w[i])
}

/// Index of the first `a` or `b` in `s` at or after `k`, or -1.
pub open spec fn first_of(s: Seq<char>, k: int, a: char, b: char) -> int
    decreases s.len() - k,
{
    if k < 0 || k >= s.len() {
        -1
    } else if s[k] == a || s[k] == b {
        k
    } else {
        first_of(s, k + 1, a, b)
    }
}

/// A number body without its exponent part (`e` or `E` and what follows).
pub open spec fn mantissa(b: Seq<char>) -> Seq<char> {
    let e = first_of(b, 0, 'e', 'E');
    if e < 0 {
        b
    } else {
        b.take(e)
    }
}

/// The digits of the mantissa before its `.`.
pub open spec fn int_digits(b: Seq<char>) -> Seq<char> {
    let m = mantissa(b);
    let d = first_of(m, 0, '.', '.');
    if d < 0 {
        m
    } else {
        m.take(d)
    }
}

/// The digits of the mantissa after its `.`.
pub open spec fn frac_digits(b: Seq<char>) -> Seq<char> {
    let m = mantissa(b);
    let d = first_of(m, 0, '.', '.');
    if d < 0 {
        Seq::<char>::empty()
    } else {
        m.skip(d + 1)
    }
}

/// The body has an exponent part.
pub open spec fn has_exp(b: Seq<char>) -> bool {
    first_of(b, 0, 'e', 'E') >= 0
}

/// The text after the exponent mark.
pub open spec fn exp_text(b: Seq<char>) -> Seq<char> {
    b.skip(first_of(b, 0, 'e', 'E') + 1)
}

/// The digits of the exponent, without its sign.
pub open spec fn exp_digits(b: Seq<char>) -> Seq<char> {
    micros_body(exp_text(b))
}

/// `digits[.digits][(e|E)[+-]digits]` with at least one mantissa digit.
pub open spec fn is_decimal(b: Seq<char>) -> bool {
    &&& all_digits(int_digits(b))
    &&& all_digits(frac_digits(b))
    &&& int_digits(b).len() + frac_digits(b).len() > 0
    &&& has_exp(b) ==> exp_digits(b).len() > 0 && all_digits(exp_digits(b))
}

/// The value of the exponent part, 0 when there is none.
pub open spec fn exponent(b: Seq<char>) -> int {
    if !has_exp(b) {
        0
    } else if exp_text(b).len() > 0 && exp_text(b)[0] == '-' {
        -digits_value(exp_digits(b))
    } else {
        digits_value(exp_digits(b))
    }
}

/// The power of ten that turns the mantissa's digits into millionths.
pub open spec fn micro_scale(b: Seq<char>) -> int {
    exponent(b) - frac_digits(b).len() + 6
}

/// The mantissa's digits that remain once the number is scaled to
/// millionths and what lies below a millionth is dropped.
pub open spec fn kept_digits(b: Seq<char>) -> Seq<char> {
    let g = int_digits(b) + frac_digits(b);
    let sc = micro_scale(b);
    if sc >= 0 {
        g
    } else if -sc >= g.len() {
        Seq::<char>::empty()
    } else {
        g.take(g.len() + sc)
    }
}

/// The number's magnitude in millionths, rounded toward zero.
pub open spec fn magnitude(b: Seq<char>) -> int {
    let sc = micro_scale(b);
    digits_value(kept_digits(b)) * pow10(
        if sc >= 0 {
            sc as nat
        } else {
            0
        },
    )
}

/// `x`, at most `c`.
pub open spec fn cap_at(x: int, c: int) -> int {
    if x > c {
        c
    } else {
        x
    }
}

/// The magnitude read from a sign-less body: `inf` and `infinity` read as
/// `MAX_MICROS`, `nan` as 0 (letters in any case), a decimal number as its
/// magnitude in millionths, at most `MAX_MICROS`.
pub open spec fn body_micros(b: Seq<char>) -> Option<int> {
    if is_word(b, "inf"@) || is_word(b, "infinity"@) {
        Some(MAX_MICROS as int)
    } else if is_word(b, "nan"@) {
        Some(0int)
    } else if is_decimal(b) {
        Some(cap_at(magnitude(b), MAX_MICROS as int))
    } else {
        None
    }
}

/// A number written as `f32` parsing accepts it (an optional sign, then
/// `inf`, `infinity`, `nan` or `digits[.digits][(e|E)[+-]digits]`, where
/// the mantissa may start or end with the point but holds a digit), in
/// millionths rounded toward zero: infinities and magnitudes beyond
/// `MAX_MICROS` read as `MAX_MICROS`, NaN as 0. `None` for anything else.
pub open spec fn parse_micros(s: Seq<char>) -> Option<int> {
    let neg = s.len() > 0 && s[0] == '-';
    match body_micros(micros_body(s)) {
        Some(x) => Some(
            if neg {
                -x
            } else {
                x
            },
        ),
        None => None,
    }
}

/// Position of the first `a` or `b` in `v[lo..hi]`, or `hi`.
fn first_of_in(v: &Vec<char>, lo: usize, hi: usize, a: char, b: char) -> (r: usize)
    requires
        lo <= hi <= v.len(),
    ensures
        lo <= r <= hi,
        first_of(v@.subrange(lo as int, hi as int), 0, a, b) == if r < hi {
            r - lo
        } else {
            -1
        },
{
    let ghost t = v@.subrange(lo as int, hi as int);
    let mut i: usize = lo;
    while i < hi
        invariant
            lo <= i <= hi <= v.len(),
            t == v@.subrange(lo as int, hi as int),
            first_of(t, 0, a, b) == first_of(t, i - lo, a, b),
        decreases hi - i,
    {
        assert(t[i - lo] == v@[i as int]);
        if v[i] == a || v[i] == b {
            return i;
        }
        i = i + 1;
    }
    i
}

/// Whether `v[lo..]` spells the word `w` (letters in either case).
fn word_in(v: &Vec<char>, lo: usize, w: &Vec<char>) -> (r: bool)
    requires
        lo <= v.len(),
    ensures
        r == is_word(v@.subrange(lo as int, v.len() as int), w@),
{
    let ghost t = v@.subrange(lo as int, v.len() as int);
    if v.len() - lo != w.len() {
        return false;
    }
    let mut i: usize = 0;
    while i < w.len()
        invariant
            i <= w.len() == t.len(),
            lo + w.len() == v.len(),
            t == v@.subrange(lo as int, v.len() as int),
            forall|k: int| 0 <= k < i ==> same_letter(#[trigger] t[k], w@[k]),
        decreases w.len() - i,
    {
        let c: char = v[lo + i];
        let l: char = w[i];
        assert(t[i as int] == c);
        if !(c == l || ((l as u32) >= 32 && (c as u32) == (l as u32) - 32)) {
            assert(!same_letter(t[i as int], w@[i as int]));
            return false;
        }
        i = i + 1;
    }
    true
}

proof fn lemma_cap_step(a: int, d: int, c: int)
    requires
        a >= 0,
        0 <= d <= 9,
        c >= 0,
    ensures
        cap_at(10 * cap_at(a, c) + d, c) == cap_at(10 * a + d, c),
{
}

/// `v[lo..hi]` as digits, at most `cap`.
fn read_digits_capped(v: &Vec<char>, lo: usize, hi: usize, cap: i128) -> (r: i128)
    requires
        lo <= hi <= v.len(),
        all_digits(v@.subrange(lo as int, hi as int)),
        0 <= cap <= MAX_MICROS,
    ensures
        r == cap_at(digits_value(v@.subrange(lo as int, hi as int)), cap as int),
{
    let mut x: i128 = 0;
    let mut i: usize = lo;
    assert(v@.subrange(lo as int, lo as int) =~= Seq::<char>::empty());
    while i < hi
        invariant
            lo <= i <= hi <= v.len(),
            0 <= cap <= MAX_MICROS,
            all_digits(v@.subrange(lo as int, hi as int)),
            digits_value(v@.subrange(lo as int, i as int)) >= 0,
            x == cap_at(digits_value(v@.subrange(lo as int, i as int)), cap as int),
        decreases hi - i,
    {
        let ghost pre = v@.subrange(lo as int, i as int);
        let ghost next = v@.subrange(lo as int, i + 1);
        assert(next.drop_last() =~= pre);
        assert(next.last() == v@[i as int]);
        assert(v@.subrange(lo as int, hi as int)[i - lo] == v@[i as int]);
        let c: char = v[i];
        let d: i128 = (c as u32 - 48) as i128;
        proof {
            lemma_cap_step(digits_value(pre), d as int, cap as int);
        }
        let y: i128 = 10 * x + d;
        x = if y > cap {
            cap
        } else {
            y
        };
        i = i + 1;
    }
    x
}

/// The first `c` digits of `v[ilo..ihi]` followed by `v[flo..fhi]`, as a
/// number at most `MAX_MICROS`.
fn read_kept(v: &Vec<char>, ilo: usize, ihi: usize, flo: usize, fhi: usize, c: usize) -> (r: i128)
    requires
        ilo <= ihi <= v.len(),
        flo <= fhi <= v.len(),
        all_digits(v@.subrange(ilo as int, ihi as int)),
        all_digits(v@.subrange(flo as int, fhi as int)),
        c <= (ihi - ilo) + (fhi - flo),
    ensures
        r == cap_at(
            digits_value(
                (v@.subrange(ilo as int, ihi as int) + v@.subrange(flo as int, fhi as int)).take(
                    c as int,
                ),
            ),
            MAX_MICROS as int,
        ),
        digits_value(
            (v@.subrange(ilo as int, ihi as int) + v@.subrange(flo as int, fhi as int)).take(
                c as int,
            ),
        ) >= 0,
{
    let ghost g = v@.subrange(ilo as int, ihi as int) + v@.subrange(flo as int, fhi as int);
    let il: usize = ihi - ilo;
    let mut x: i128 = 0;
    let mut j: usize = 0;
    assert(g.take(0) =~= Seq::<char>::empty());
    while j < c
        invariant
            j <= c <= g.len(),
            il == ihi - ilo,
            ilo <= ihi <= v.len(),
            flo <= fhi <= v.len(),
            g == v@.subrange(ilo as int, ihi as int) + v@.subrange(flo as int, fhi as int),
            all_digits(v@.subrange(ilo as int, ihi as int)),
            all_digits(v@.subrange(flo as int, fhi as int)),
            digits_value(g.take(j as int)) >= 0,
            x == cap_at(digits_value(g.take(j as int)), MAX_MICROS as int),
        decreases c - j,
    {
        let ch: char = if j < il {
            v[ilo + j]
        } else {
            v[flo + (j - il)]
        };
        if j < il {
            assert(v@.subrange(ilo as int, ihi as int)[j as int] == ch);
        } else {
            assert(v@.subrange(flo as int, fhi as int)[j - il] == ch);
        }
        assert(g[j as int] == ch);
        assert(is_digit(ch));
        assert(g.take(j + 1).drop_last() =~= g.take(j as int));
        assert(g.take(j + 1).last() == ch);
        let d: i128 = (ch as u32 - 48) as i128;
        proof {
            lemma_cap_step(digits_value(g.take(j as int)), d as int, MAX_MICROS as int);
        }
        let y: i128 = 10 * x + d;
        x = if y > MAX_MICROS {
            MAX_MICROS
        } else {
            y
        };
        j = j + 1;
    }
    x
}

proof fn lemma_pow10_pos(n: nat)
    ensures
        pow10(n) >= 1,
    decreases n,
{
    if n > 0 {
        lemma_pow10_pos((n - 1) as nat);
    }
}

proof fn lemma_pow10_big(n: nat)
    requires
        n >= 31,
    ensures
        pow10(n) > MAX_MICROS,
    decreases n,
{
    if n == 31 {
        reveal_with_fuel(pow10, 32);
    } else {
        lemma_pow10_big((n - 1) as nat);
    }
}

/// `cap_at(v * 10^z, MAX_MICROS)` from `x == cap_at(v, MAX_MICROS)`.
fn scale_up(x: i128, z: i128, Ghost(v): Ghost<int>) -> (r: i128)
    requires
        v >= 0,
        z >= 0,
        x == cap_at(v, MAX_MICROS as int),
    ensures
        r == cap_at(v * pow10(z as nat), MAX_MICROS as int),
        0 <= r <= MAX_MICROS,
{
    proof {
        lemma_pow10_pos(z as nat);
    }
    if x == 0 {
        assert(v == 0);
        let ghost p = pow10(z as nat);
        assert(v * p == 0) by (nonlinear_arith)
            requires
                v == 0,
        ;
        return 0;
    }
    if z >= 31 {
        proof {
            lemma_pow10_big(z as nat);
            assert(v * pow10(z as nat) >= pow10(z as nat)) by (nonlinear_arith)
                requires
                    v >= 1,
                    pow10(z as nat) >= 1,
            ;
        }
        return MAX_MICROS;
    }
    let mut y: i128 = x;
    let mut t: i128 = 0;
    assert(v * pow10(0) == v);
    while t < z
        invariant
            0 <= t <= z,
            v >= 0,
            y == cap_at(v * pow10(t as nat), MAX_MICROS as int),
        decreases z - t,
    {
        proof {
            lemma_pow10_pos(t as nat);
            assert(pow10((t + 1) as nat) == 10 * pow10(t as nat));
            assert(v * pow10((t + 1) as nat) == 10 * (v * pow10(t as nat))) by (nonlinear_arith)
                requires
                    pow10((t + 1) as nat) == 10 * pow10(t as nat),
            ;
            assert(v * pow10(t as nat) >= 0) by (nonlinear_arith)
                requires
                    v >= 0,
                    pow10(t as nat) >= 1,
            ;
            lemma_cap_step(v * pow10(t as nat), 0, MAX_MICROS as int);
        }
        let w: i128 = 10 * y;
        y = if w > MAX_MICROS {
            MAX_MICROS
        } else {
            w
        };
        t = t + 1;
    }
    y
}

/// The magnitude read from the body `s[lo..]` (see `body_micros`).
#[verifier::rlimit(100)]
#[verifier::spinoff_prover]
fn read_body(s: &Vec<char>, lo: usize) -> (r: Option<i128>)
    requires
        lo <= s.len(),
    ensures
        match r {
            Some(x) => body_micros(s@.subrange(lo as int, s.len() as int)) == Some(x as int) && 0
                <= x <= MAX_MICROS,
            None => body_micros(s@.subrange(lo as int, s.len() as int)) is None,
        },
{
    proof {
        reveal_strlit("inf");
        reveal_strlit("infinity");
        reveal_strlit("nan");
    }
    let n: usize = s.len();
    let ghost b = s@.subrange(lo as int, n as int);
    let w_inf: Vec<char> = vec!['i', 'n', 'f'];
    let w_infinity: Vec<char> = vec!['i', 'n', 'f', 'i', 'n', 'i', 't', 'y'];
    let w_nan: Vec<char> = vec!['n', 'a', 'n'];
    assert(w_inf@ =~= "inf"@);
    assert(w_infinity@ =~= "infinity"@);
    assert(w_nan@ =~= "nan"@);
    if word_in(s, lo, &w_inf) || word_in(s, lo, &w_infinity) {
        return Some(MAX_MICROS);
    }
    if word_in(s, lo, &w_nan) {
        return Some(0);
    }
    let e: usize = first_of_in(s, lo, n, 'e', 'E');
    assert(mantissa(b) =~= s@.subrange(lo as int, e as int));
    let d: usize = first_of_in(s, lo, e, '.', '.');
    let flo: usize = if d < e {
        d + 1
    } else {
        e
    };
    assert(int_digits(b) =~= s@.subrange(lo as int, d as int));
    assert(frac_digits(b) =~= s@.subrange(flo as int, e as int));
    if !all_digits_in(s, lo, d) || !all_digits_in(s, flo, e) {
        return None;
    }
    let il: usize = d - lo;
    let fl: usize = e - flo;
    if il == 0 && fl == 0 {
        return None;
    }
    let mut xv: i128 = 0;
    let mut xneg: bool = false;
    if e < n {
        let xs: usize = if e + 1 < n && (s[e + 1] == '+' || s[e + 1] == '-') {
            e + 2
        } else {
            e + 1
        };
        xneg = e + 1 < n && s[e + 1] == '-';
        assert(exp_text(b) =~= s@.subrange(e + 1, n as int));
        assert(exp_digits(b) =~= s@.subrange(xs as int, n as int));
        if xs == n || !all_digits_in(s, xs, n) {
            return None;
        }
        xv = read_digits_capped(s, xs, n, MAX_MICROS);
        proof {
            lemma_digits_value_mono(exp_digits(b));
        }
    }
    assert(is_decimal(b));
    let ghost g = int_digits(b) + frac_digits(b);
    let ghost ev = if e < n {
        digits_value(exp_digits(b))
    } else {
        0
    };
    assert(xv == cap_at(ev, MAX_MICROS as int));
    assert(exponent(b) == if xneg {
        -ev
    } else {
        ev
    });
    assert(g.len() == il + fl);
    if xv == MAX_MICROS {
        // The exponent is at least 10^30: far beyond the number of digits.
        if xneg {
            assert(-micro_scale(b) >= g.len());
            assert(kept_digits(b) =~= Seq::<char>::empty());
            assert(magnitude(b) == 0);
            return Some(0);
        } else {
            assert(micro_scale(b) >= 31);
            assert(kept_digits(b) == g);
            let x = read_kept(s, lo, d, flo, e, il + fl);
            assert(g.take((il + fl) as int) =~= g);
            let r = scale_up(x, 31, Ghost(digits_value(g)));
            proof {
                lemma_pow10_big(micro_scale(b) as nat);
                lemma_pow10_big(31);
                lemma_digits_value_mono(g);
                assert(magnitude(b) == digits_value(g) * pow10(micro_scale(b) as nat));
                if digits_value(g) == 0 {
                    let dv = digits_value(g);
                    let pm = pow10(micro_scale(b) as nat);
                    let p31 = pow10(31);
                    assert(dv * pm == 0 && dv * p31 == 0) by (nonlinear_arith)
                        requires
                            dv == 0,
                    ;
                } else {
                    assert(digits_value(g) * pow10(micro_scale(b) as nat) >= pow10(
                        micro_scale(b) as nat,
                    )) by (nonlinear_arith)
                        requires
                            digits_value(g) >= 1,
                            pow10(micro_scale(b) as nat) >= 1,
                    ;
                    assert(digits_value(g) * pow10(31) >= pow10(31)) by (nonlinear_arith)
                        requires
                            digits_value(g) >= 1,
                            pow10(31) >= 1,
                    ;
                }
            }
            return Some(r);
        }
    }
    let sc: i128 = (if xneg {
        -xv
    } else {
        xv
    }) - (fl as i128) + 6;
    assert(sc == micro_scale(b));
    if sc >= 0 {
        let x = read_kept(s, lo, d, flo, e, il + fl);
        assert(g.take((il + fl) as int) =~= g);
        let r = scale_up(x, sc, Ghost(digits_value(g)));
        assert(kept_digits(b) == g);
        assert(magnitude(b) == digits_value(g) * pow10(sc as nat));
        Some(r)
    } else {
        let k: i128 = -sc;
        if k >= (il + fl) as i128 {
            assert(kept_digits(b) =~= Seq::<char>::empty());
            assert(magnitude(b) == 0);
            return Some(0);
        }
        let c: usize = il + fl - (k as usize);
        let x = read_kept(s, lo, d, flo, e, c);
        assert(kept_digits(b) == g.take(c as int));
        assert(pow10(0) == 1);
        assert(magnitude(b) == digits_value(kept_digits(b)) * pow10(0));
        Some(x)
    }
}

/// Reads `s` as a number in millionths (see `parse_micros`).
pub fn parse_micros_chars(s: &Vec<char>) -> (r: Option<i128>)
    ensures
        match r {
            Some(x) => parse_micros(s@) == Some(x as int) && -MAX_MICROS <= x <= MAX_MICROS,
            None => parse_micros(s@) is None,
        },
{
    let n: usize = s.len();
    let neg = n > 0 && s[0] == '-';
    let start: usize = if n > 0 && (s[0] == '+' || s[0] == '-') {
        1
    } else {
        0
    };
    assert(micros_body(s@) =~= s@.subrange(start as int, n as int));
    match read_body(s, start) {
        Some(x) => {
            if neg {
                Some(-x)
            } else {
                Some(x)
            }
        },
        None => None,
    }
}


} // verus!

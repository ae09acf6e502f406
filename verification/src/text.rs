//! Character-level text helpers: whitespace trimming, CJK detection and
//! sentence-end detection, stated over `Seq<char>`.
use vstd::prelude::*;

verus! {

broadcast use vstd::string::group_string_axioms;

// ── Character classes ────────────────────────────────────────────────────────

/// Unicode `White_Space` property, the set that `char::is_whitespace` and
/// `str::trim` use.
pub open spec fn is_white(c: char) -> bool {
    let u = c as u32;
    ||| 0x09 <= u <= 0x0D
    ||| u == 0x20
    ||| u == 0x85
    ||| u == 0xA0
    ||| u == 0x1680
    ||| 0x2000 <= u <= 0x200A
    ||| u == 0x2028
    ||| u == 0x2029
    ||| u == 0x202F
    ||| u == 0x205F
    ||| u == 0x3000
}

/// CJK ideographs, CJK symbols and fullwidth forms.
pub open spec fn spec_is_cjk(c: char) -> bool {
    let u = c as u32;
    ||| 0x4E00 <= u <= 0x9FFF
    ||| 0x3400 <= u <= 0x4DBF
    ||| 0xF900 <= u <= 0xFAFF
    ||| 0x3000 <= u <= 0x303F
    ||| 0xFF00 <= u <= 0xFFEF
}

/// CJK end-of-sentence punctuation: `。！？；`.
pub open spec fn is_cjk_sentence_end(c: char) -> bool {
    c == '\u{3002}' || c == '\u{FF01}' || c == '\u{FF1F}' || c == '\u{FF1B}'
}

/// English end-of-sentence punctuation: `.!?`.
pub open spec fn is_en_sentence_end(c: char) -> bool {
    c == '.' || c == '!' || c == '?'
}

pub fn is_whitespace(c: char) -> (b: bool)
    ensures
        b == is_white(c),
{
    let u: u32 = c as u32;
    (0x09 <= u && u <= 0x0D) || u == 0x20 || u == 0x85 || u == 0xA0 || u == 0x1680 || (0x2000
        <= u && u <= 0x200A) || u == 0x2028 || u == 0x2029 || u == 0x202F || u == 0x205F || u
        == 0x3000
}

/// Whether `c` is a CJK character.
pub fn is_cjk(c: char) -> (b: bool)
    ensures
        b == spec_is_cjk(c),
{
    let u: u32 = c as u32;
    (0x4E00 <= u && u <= 0x9FFF) || (0x3400 <= u && u <= 0x4DBF) || (0xF900 <= u && u <= 0xFAFF)
        || (0x3000 <= u && u <= 0x303F) || (0xFF00 <= u && u <= 0xFFEF)
}

pub fn cjk_sentence_end(c: char) -> (b: bool)
    ensures
        b == is_cjk_sentence_end(c),
{
    c == '\u{3002}' || c == '\u{FF01}' || c == '\u{FF1F}' || c == '\u{FF1B}'
}

pub fn en_sentence_end(c: char) -> (b: bool)
    ensures
        b == is_en_sentence_end(c),
{
    c == '.' || c == '!' || c == '?'
}

// ── Trimming ─────────────────────────────────────────────────────────────────

/// Number of leading whitespace characters.
pub open spec fn leading_white(s: Seq<char>) -> nat
    decreases s.len(),
{
    if s.len() > 0 && is_white(s[0]) {
        1 + leading_white(s.drop_first())
    } else {
        0
    }
}

/// Number of trailing whitespace characters.
pub open spec fn trailing_white(s: Seq<char>) -> nat
    decreases s.len(),
{
    if s.len() > 0 && is_white(s.last()) {
        1 + trailing_white(s.drop_last())
    } else {
        0
    }
}

/// `s` without leading and trailing whitespace (what `str::trim` returns).
pub open spec fn trim(s: Seq<char>) -> Seq<char> {
    let a = s.skip(leading_white(s) as int);
    a.take(a.len() - trailing_white(a))
}

pub proof fn lemma_leading_white(s: Seq<char>)
    ensures
        leading_white(s) <= s.len(),
        forall|i: int| 0 <= i < leading_white(s) ==> is_white(#[trigger] s[i]),
        leading_white(s) < s.len() ==> !is_white(s[leading_white(s) as int]),
    decreases s.len(),
{
    if s.len() > 0 && is_white(s[0]) {
        lemma_leading_white(s.drop_first());
        assert forall|i: int| 0 <= i < leading_white(s) implies is_white(#[trigger] s[i]) by {
            if i > 0 {
                assert(s[i] == s.drop_first()[i - 1]);
            }
        }
    }
}

pub proof fn lemma_trailing_white(s: Seq<char>)
    ensures
        trailing_white(s) <= s.len(),
        forall|i: int|
            s.len() - trailing_white(s) <= i < s.len() ==> is_white(#[trigger] s[i]),
        trailing_white(s) < s.len() ==> !is_white(s[s.len() - 1 - trailing_white(s)]),
    decreases s.len(),
{
    if s.len() > 0 && is_white(s.last()) {
        lemma_trailing_white(s.drop_last());
        assert forall|i: int|
            s.len() - trailing_white(s) <= i < s.len() implies is_white(#[trigger] s[i]) by {
            if i < s.len() - 1 {
                assert(s[i] == s.drop_last()[i]);
            }
        }
    }
}

/// `leading_white` is the index of the first non-whitespace character (or
/// the length when there is none).
pub proof fn lemma_leading_white_unique(s: Seq<char>, k: int)
    requires
        0 <= k <= s.len(),
        forall|i: int| 0 <= i < k ==> is_white(#[trigger] s[i]),
        k < s.len() ==> !is_white(s[k]),
    ensures
        leading_white(s) == k,
    decreases s.len(),
{
    if k > 0 {
        assert(is_white(s[0]));
        assert forall|i: int| 0 <= i < k - 1 implies is_white(#[trigger] s.drop_first()[i]) by {
            assert(s.drop_first()[i] == s[i + 1]);
        }
        if k - 1 < s.drop_first().len() {
            assert(s.drop_first()[k - 1] == s[k]);
        }
        lemma_leading_white_unique(s.drop_first(), k - 1);
    } else {
        if s.len() > 0 {
            assert(!is_white(s[0]));
        }
    }
}

/// `trailing_white` is the count of the maximal whitespace suffix.
pub proof fn lemma_trailing_white_unique(s: Seq<char>, k: int)
    requires
        0 <= k <= s.len(),
        forall|i: int| s.len() - k <= i < s.len() ==> is_white(#[trigger] s[i]),
        k < s.len() ==> !is_white(s[s.len() - 1 - k]),
    ensures
        trailing_white(s) == k,
    decreases s.len(),
{
    if k > 0 {
        assert(is_white(s[s.len() - 1]));
        assert forall|i: int|
            s.drop_last().len() - (k - 1) <= i < s.drop_last().len() implies is_white(
            #[trigger] s.drop_last()[i],
        ) by {
            assert(s.drop_last()[i] == s[i]);
        }
        if k - 1 < s.drop_last().len() {
            assert(s.drop_last()[s.drop_last().len() - 1 - (k - 1)] == s[s.len() - 1 - k]);
        }
        lemma_trailing_white_unique(s.drop_last(), k - 1);
    } else {
        if s.len() > 0 {
            assert(!is_white(s[s.len() - 1]));
        }
    }
}

/// Trimming twice is trimming once.
pub proof fn lemma_trim_idempotent(s: Seq<char>)
    ensures
        trim(trim(s)) == trim(s),
{
    let a = s.skip(leading_white(s) as int);
    let t = trim(s);
    lemma_leading_white(s);
    lemma_trailing_white(a);
    if t.len() > 0 {
        assert(t[0] == a[0]);
        assert(a[0] == s[leading_white(s) as int]);
        assert(t[t.len() - 1] == a[a.len() - 1 - trailing_white(a)]);
    }
    lemma_leading_white_unique(t, 0);
    lemma_trailing_white_unique(t, 0);
    assert(trim(t) =~= t);
}

/// The characters of a string, in order.
pub fn chars_of(s: &str) -> (v: Vec<char>)
    ensures
        v@ == s@,
{
    let mut v: Vec<char> = Vec::new();
    for c in it: s.chars()
        invariant
            v@ == it.seq().take(it.index() as int),
            it.seq() == s@,
    {
        v.push(c);
    }
    assert(v@ =~= s@);
    v
}

/// Appends one character to a `String` (`String::push`).
#[verifier::external_body]
pub(crate) fn push_char(s: &mut String, c: char)
    ensures
        final(s)@ == old(s)@.push(c),
{
    s.push(c);
}

/// Appends the characters `v[lo..hi]` to `s`.
pub fn push_chars(s: &mut String, v: &Vec<char>, lo: usize, hi: usize)
    requires
        lo <= hi <= v.len(),
    ensures
        final(s)@ == old(s)@ + v@.subrange(lo as int, hi as int),
{
    let mut i: usize = lo;
    while i < hi
        invariant
            lo <= i <= hi <= v.len(),
            s@ == old(s)@ + v@.subrange(lo as int, i as int),
        decreases hi - i,
    {
        push_char(s, v[i]);
        i = i + 1;
        assert(s@ =~= old(s)@ + v@.subrange(lo as int, i as int));
    }
}

/// The copy `v[lo..hi]`.
pub fn sub_chars(v: &Vec<char>, lo: usize, hi: usize) -> (r: Vec<char>)
    requires
        lo <= hi <= v.len(),
    ensures
        r@ == v@.subrange(lo as int, hi as int),
{
    let mut r: Vec<char> = Vec::new();
    let mut i: usize = lo;
    while i < hi
        invariant
            lo <= i <= hi <= v.len(),
            r@ == v@.subrange(lo as int, i as int),
        decreases hi - i,
    {
        r.push(v[i]);
        i = i + 1;
        assert(r@ =~= v@.subrange(lo as int, i as int));
    }
    r
}

/// The string made of `v[lo..hi]`.
pub fn string_from(v: &Vec<char>, lo: usize, hi: usize) -> (s: String)
    requires
        lo <= hi <= v.len(),
    ensures
        s@ == v@.subrange(lo as int, hi as int),
{
    let mut s = String::new();
    push_chars(&mut s, v, lo, hi);
    assert(s@ =~= v@.subrange(lo as int, hi as int));
    s
}

/// Bounds `(lo, hi)` such that `v[lo..hi]` is `v` trimmed.
pub fn trim_bounds(v: &Vec<char>) -> (r: (usize, usize))
    ensures
        r.0 <= r.1 <= v.len(),
        v@.subrange(r.0 as int, r.1 as int) == trim(v@),
        r.0 == leading_white(v@),
{
    let n: usize = v.len();
    let mut lo: usize = 0;
    while lo < n && is_whitespace(v[lo])
        invariant
            lo <= n == v.len(),
            forall|i: int| 0 <= i < lo ==> is_white(#[trigger] v@[i]),
        decreases n - lo,
    {
        lo = lo + 1;
    }
    proof {
        lemma_leading_white_unique(v@, lo as int);
    }
    let mut hi: usize = n;
    while hi > lo && is_whitespace(v[hi - 1])
        invariant
            lo <= hi <= n == v.len(),
            forall|i: int| hi <= i < n ==> is_white(#[trigger] v@[i]),
        decreases hi,
    {
        hi = hi - 1;
    }
    proof {
        let a = v@.skip(lo as int);
        assert forall|i: int| a.len() - (n - hi) <= i < a.len() implies is_white(#[trigger] a[i]) by {
            assert(a[i] == v@[i + lo]);
        }
        if n - hi < a.len() {
            assert(a[a.len() - 1 - (n - hi)] == v@[hi - 1]);
        }
        lemma_trailing_white_unique(a, (n - hi) as int);
        assert(v@.subrange(lo as int, hi as int) =~= a.take(a.len() - trailing_white(a)));
    }
    (lo, hi)
}

/// `str::trim` on a string, as an owned `String`.
pub fn trimmed(s: &str) -> (r: String)
    ensures
        r@ == trim(s@),
{
    let v = chars_of(s);
    let (lo, hi) = trim_bounds(&v);
    string_from(&v, lo, hi)
}

// ── Text classification ──────────────────────────────────────────────────────

/// Number of CJK characters in `s`.
pub open spec fn cjk_count(s: Seq<char>) -> nat
    decreases s.len(),
{
    if s.len() == 0 {
        0
    } else {
        cjk_count(s.drop_last()) + if spec_is_cjk(s.last()) {
            1nat
        } else {
            0nat
        }
    }
}

/// Text is "primarily CJK": more than 30% of its characters are CJK.
pub open spec fn spec_is_cjk_text(s: Seq<char>) -> bool {
    s.len() > 0 && cjk_count(s) * 10 > s.len() * 3
}

pub proof fn lemma_cjk_count_bound(s: Seq<char>)
    ensures
        cjk_count(s) <= s.len(),
    decreases s.len(),
{
    if s.len() > 0 {
        lemma_cjk_count_bound(s.drop_last());
    }
}

/// Whether more than 30% of the characters of `v` are CJK.
pub fn is_cjk_chars(v: &Vec<char>) -> (b: bool)
    ensures
        b == spec_is_cjk_text(v@),
{
    let n: usize = v.len();
    let mut count: usize = 0;
    let mut i: usize = 0;
    while i < n
        invariant
            i <= n == v.len(),
            count == cjk_count(v@.take(i as int)),
            count <= i,
        decreases n - i,
    {
        assert(v@.take(i + 1).drop_last() =~= v@.take(i as int));
        if is_cjk(v[i]) {
            count = count + 1;
        }
        i = i + 1;
    }
    assert(v@.take(n as int) =~= v@);
    if n == 0 {
        return false;
    }
    (count as u128) * 10 > (n as u128) * 3
}

/// Whether `text` is primarily CJK (more than 30% CJK characters).
pub fn is_cjk_text(text: &str) -> (b: bool)
    ensures
        b == spec_is_cjk_text(text@),
{
    let v = chars_of(text);
    is_cjk_chars(&v)
}

/// The trimmed text ends with `。！？；` or `.!?`.
pub open spec fn spec_ends_with_sentence(s: Seq<char>) -> bool {
    let t = trim(s);
    t.len() > 0 && (is_cjk_sentence_end(t.last()) || is_en_sentence_end(t.last()))
}

/// Whether the trimmed text ends with sentence-ending punctuation.
pub fn ends_with_sentence(text: &str) -> (b: bool)
    ensures
        b == spec_ends_with_sentence(text@),
{
    let v = chars_of(text);
    let (lo, hi) = trim_bounds(&v);
    if lo == hi {
        return false;
    }
    let last: char = v[hi - 1];
    assert(trim(text@).last() == last);
    cjk_sentence_end(last) || en_sentence_end(last)
}


// ── Decimal numbers ──────────────────────────────────────────────────────────

/// The ASCII digit for `d < 10`.
pub open spec fn digit_char(d: nat) -> char {
    (48 + d) as char
}

/// Decimal representation of a natural number, without leading zeros.
pub open spec fn decimal(n: nat) -> Seq<char>
    decreases n,
{
    if n < 10 {
        seq![digit_char(n)]
    } else {
        decimal(n / 10).push(digit_char(n % 10))
    }
}

/// Decimal representation of an integer, with a leading `-` when negative.
pub open spec fn signed_decimal(n: int) -> Seq<char> {
    if n < 0 {
        seq!['-'] + decimal((-n) as nat)
    } else {
        decimal(n as nat)
    }
}

fn digit(d: u64) -> (c: char)
    requires
        d < 10,
    ensures
        c == digit_char(d as nat),
{
    let b: u8 = 48u8 + (d as u8);
    b as char
}

/// Appends the decimal representation of `n` to `s`.
pub fn push_decimal(s: &mut String, n: u64)
    ensures
        final(s)@ == old(s)@ + decimal(n as nat),
    decreases n,
{
    if n >= 10 {
        push_decimal(s, n / 10);
    }
    push_char(s, digit(n % 10));
    assert(final(s)@ =~= old(s)@ + decimal(n as nat));
}

/// Appends the decimal representation of a signed `n` to `s`.
pub fn push_signed_decimal(s: &mut String, n: i64)
    ensures
        final(s)@ == old(s)@ + signed_decimal(n as int),
{
    if n < 0 {
        push_char(s, '-');
        let m: u64 = if n == i64::MIN {
            0x8000_0000_0000_0000u64
        } else {
            (-n) as u64
        };
        push_decimal(s, m);
        assert(final(s)@ =~= old(s)@ + signed_decimal(n as int));
    } else {
        push_decimal(s, n as u64);
    }
}

// ── Substrings ───────────────────────────────────────────────────────────────

/// `p` occurs in `s` at position `k`.
pub open spec fn occurs_at(s: Seq<char>, p: Seq<char>, k: int) -> bool {
    0 <= k && k + p.len() <= s.len() && s.subrange(k, k + p.len()) == p
}

/// `p` occurs somewhere in `s` (`str::contains`).
pub open spec fn has_substring(s: Seq<char>, p: Seq<char>) -> bool {
    exists|k: int| occurs_at(s, p, k)
}

/// Whether `p` occurs in `s` at position `k`.
pub fn matches_at(s: &Vec<char>, p: &Vec<char>, k: usize) -> (b: bool)
    requires
        k <= s.len(),
    ensures
        b == occurs_at(s@, p@, k as int),
{
    if p.len() > s.len() - k {
        return false;
    }
    let m: usize = p.len();
    let mut j: usize = 0;
    while j < m
        invariant
            j <= m == p.len(),
            k + m <= s.len(),
            forall|i: int| 0 <= i < j ==> s@[k + i] == p@[i],
        decreases m - j,
    {
        if s[k + j] != p[j] {
            assert(s@.subrange(k as int, k + m)[j as int] != p@[j as int]);
            return false;
        }
        j = j + 1;
    }
    assert(s@.subrange(k as int, k + m) =~= p@);
    true
}

/// Whether `p` occurs in `s` (`str::contains`).
pub fn contains_chars(s: &Vec<char>, p: &Vec<char>) -> (b: bool)
    ensures
        b == has_substring(s@, p@),
{
    let n: usize = s.len();
    let mut k: usize = 0;
    while k < n
        invariant
            k <= n == s.len(),
            forall|i: int| 0 <= i < k ==> !occurs_at(s@, p@, i),
        decreases n - k,
    {
        if matches_at(s, p, k) {
            return true;
        }
        k = k + 1;
    }
    let last = matches_at(s, p, n);
    assert(last ==> occurs_at(s@, p@, n as int));
    assert(!last ==> forall|i: int| !occurs_at(s@, p@, i));
    last
}

/// Whether the string `s` contains the string `p`.
pub fn str_contains(s: &str, p: &str) -> (b: bool)
    ensures
        b == has_substring(s@, p@),
{
    let sv = chars_of(s);
    let pv = chars_of(p);
    contains_chars(&sv, &pv)
}

} // verus!

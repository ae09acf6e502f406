//! Stage 4 of the pipeline: commercial-grade subtitle post-processing.
//!
//! `process` runs six passes in order: merge, duration bounds, CPS
//! splitting, line formatting, overlap fixing and timestamp rounding.
//! All times are microseconds.
use vstd::prelude::*;
use crate::subtitle::{Cue, Segment, cues, times_within};
use crate::text::{
    cjk_sentence_end, en_sentence_end, is_cjk_sentence_end, is_en_sentence_end, string_from,
    chars_of, is_cjk_chars, ends_with_sentence, push_char, push_chars, spec_ends_with_sentence,
    spec_is_cjk_text, sub_chars, trim, trim_bounds, leading_white, lemma_leading_white,
    lemma_trailing_white,
};

verus! {

broadcast use {vstd::seq_lib::group_seq_properties, Seq::group_seq_flatten};

/// Maximum characters per second for comfortable reading (20 cps): one
/// character per 50 000 µs.
pub const MICROS_PER_CHAR: i128 = 50_000;
/// Minimum segment duration (1.2 s).
pub const MIN_DURATION: i64 = 1_200_000;
/// Maximum segment duration (8 s).
pub const MAX_DURATION: i128 = 8_000_000;
/// Maximum characters per line (SRT standard).
pub const MAX_LINE_LEN: usize = 42;
/// Maximum lines per subtitle.
pub const MAX_LINES: usize = 2;
/// Merge gap threshold (0.5 s).
pub const MERGE_GAP: i128 = 500_000;
/// Speaker pause threshold (1.5 s): never merge across a longer gap.
pub const SPEAKER_PAUSE: i128 = 1_500_000;
/// Space kept between a segment and the next one when fixing overlaps (0.05 s).
pub const OVERLAP_MARGIN: i64 = 50_000;
/// Timestamps are rounded to 2 decimal places of a second (10 000 µs).
pub const ROUND_UNIT: i64 = 10_000;
/// Largest magnitude of a time that `process` accepts (2^60 µs, about
/// 36 000 years), so that every pass stays within `i64`.
pub const TIME_LIMIT: i64 = 0x1000_0000_0000_0000;
/// Bound on the magnitude of times between passes.
pub const STAGE_LIMIT: i64 = 0x2000_0000_0000_0000;

// ── Pass 1: merge ────────────────────────────────────────────────────────────

/// Text of two merged segments: both trimmed, joined by a space unless the
/// first one is primarily CJK.
pub open spec fn joined_text(a: Seq<char>, b: Seq<char>) -> Seq<char> {
    if spec_is_cjk_text(a) {
        trim(a) + trim(b)
    } else {
        trim(a) + seq![' '] + trim(b)
    }
}

/// Whether `seg` is merged into the last cue `prev` of the result so far.
pub open spec fn merges_into(prev: Cue, seg: Cue) -> bool {
    let gap = seg.start - prev.end;
    let same_subtitle = if gap <= MERGE_GAP {
        // Overlapping segments are left apart; `fix_overlaps` separates them.
        gap >= 0
    } else {
        // Between 0.5 s and 1.5 s: only when the sentence continues.
        !spec_ends_with_sentence(prev.text)
    };
    &&& gap <= SPEAKER_PAUSE
    &&& same_subtitle
    &&& seg.end - prev.start <= MAX_DURATION
    &&& joined_text(prev.text, seg.text).len() <= MAX_LINE_LEN * MAX_LINES
}

/// One step of the merge pass: extend the last cue of `acc` with `seg`, or
/// start a new cue.
pub open spec fn merge_step(acc: Seq<Cue>, seg: Cue) -> Seq<Cue> {
    let prev = acc.last();
    if merges_into(prev, seg) {
        acc.update(
            acc.len() - 1,
            Cue { start: prev.start, end: seg.end, text: joined_text(prev.text, seg.text) },
        )
    } else {
        acc.push(seg)
    }
}

/// The merge pass over a whole sequence.
pub open spec fn merge_all(s: Seq<Cue>) -> Seq<Cue>
    decreases s.len(),
{
    if s.len() <= 1 {
        s
    } else {
        merge_step(merge_all(s.drop_last()), s.last())
    }
}

pub proof fn lemma_cues_push(v: Seq<Segment>, x: Segment)
    ensures
        cues(v.push(x)) == cues(v).push(x@),
{
    assert(cues(v.push(x)) =~= cues(v).push(x@));
}

pub proof fn lemma_cues_update(v: Seq<Segment>, i: int, x: Segment)
    requires
        0 <= i < v.len(),
    ensures
        cues(v.update(i, x)) == cues(v).update(i, x@),
{
    assert(cues(v.update(i, x)) =~= cues(v).update(i, x@));
}

/// The merge pass keeps the last end time and never grows the sequence;
/// every time it produces is a time of its input.
pub proof fn lemma_merge_all_shape(s: Seq<Cue>)
    requires
        s.len() > 0,
    ensures
        merge_all(s).len() >= 1,
        merge_all(s).len() <= s.len(),
        merge_all(s).last().end == s.last().end,
        merge_all(s)[0].start == s[0].start,
        forall|b: int| times_within(s, b) ==> #[trigger] times_within(merge_all(s), b),
    decreases s.len(),
{
    if s.len() > 1 {
        lemma_merge_all_shape(s.drop_last());
        let acc = merge_all(s.drop_last());
        assert forall|b: int| times_within(s, b) implies #[trigger] times_within(
            merge_all(s),
            b,
        ) by {
            assert(times_within(s.drop_last(), b));
            assert(times_within(acc, b));
            assert(s.last() == s[s.len() - 1]);
        }
    }
}

/// A segment that follows the last subtitle merged so far after a gap of 0
/// to 0.5 s is merged into it, whatever punctuation ends that subtitle, as
/// long as the merged subtitle lasts at most 8 s and its text (the two
/// trimmed texts and a separating space) fits in 84 characters: the number
/// of subtitles stays, the earlier ones are unchanged, and the last one runs
/// from its own start to the segment's end with both texts.
pub proof fn lemma_small_gap_merges(s: Seq<Cue>, c: Cue)
    requires
        s.len() > 0,
        0 <= c.start - merge_all(s).last().end <= 500_000,
        c.end - merge_all(s).last().start <= 8_000_000,
        trim(merge_all(s).last().text).len() + 1 + trim(c.text).len() <= 84,
    ensures
        merge_all(s.push(c)).len() == merge_all(s).len(),
        merge_all(s.push(c)).drop_last() == merge_all(s).drop_last(),
        merge_all(s.push(c)).last().start == merge_all(s).last().start,
        merge_all(s.push(c)).last().end == c.end,
        merge_all(s.push(c)).last().text == trim(merge_all(s).last().text) + seq![' '] + trim(
            c.text,
        ) || merge_all(s.push(c)).last().text == trim(merge_all(s).last().text) + trim(c.text),
{
    lemma_merge_all_shape(s);
    let t = s.push(c);
    assert(t.drop_last() =~= s);
    assert(t.last() == c);
    let acc = merge_all(s);
    let p = acc.last();
    assert(merges_into(p, c));
    assert(merge_all(t) == merge_step(acc, c));
    assert(merge_all(t).drop_last() =~= acc.drop_last());
}

/// Every subtitle the merge pass produces is one of its input segments, or
/// a merge that lasts at most `MAX_DURATION` and holds at most
/// `MAX_LINE_LEN * MAX_LINES` characters.
pub proof fn lemma_merge_bounds(s: Seq<Cue>)
    ensures
        forall|i: int|
            0 <= i < merge_all(s).len() ==> s.contains(#[trigger] merge_all(s)[i]) || (
            merge_all(s)[i].end - merge_all(s)[i].start <= MAX_DURATION && merge_all(s)[i].text.len()
                <= MAX_LINE_LEN * MAX_LINES),
    decreases s.len(),
{
    if s.len() > 1 {
        let d = s.drop_last();
        lemma_merge_bounds(d);
        lemma_merge_all_shape(d);
        let acc = merge_all(d);
        assert forall|i: int| 0 <= i < merge_all(s).len() implies s.contains(
            #[trigger] merge_all(s)[i],
        ) || (merge_all(s)[i].end - merge_all(s)[i].start <= MAX_DURATION
            && merge_all(s)[i].text.len() <= MAX_LINE_LEN * MAX_LINES) by {
            if i < acc.len() && !(merges_into(acc.last(), s.last()) && i == acc.len() - 1) {
                assert(merge_all(s)[i] == acc[i]);
                if d.contains(acc[i]) {
                    let j = choose|j: int| 0 <= j < d.len() && d[j] == acc[i];
                    assert(s[j] == acc[i]);
                }
            } else if !merges_into(acc.last(), s.last()) {
                assert(merge_all(s)[i] == s.last());
                assert(s[s.len() - 1] == s.last());
            }
        }
    }
}

/// Joined text of two cues as a `String`, and its length in characters.
fn join_texts(a: &String, b: &String) -> (r: (String, usize))
    ensures
        r.0@ == joined_text(a@, b@),
        r.1 == r.0@.len(),
{
    let va = chars_of(a.as_str());
    let vb = chars_of(b.as_str());
    let (alo, ahi) = trim_bounds(&va);
    let (blo, bhi) = trim_bounds(&vb);
    let cjk = is_cjk_chars(&va);
    let mut s = String::new();
    push_chars(&mut s, &va, alo, ahi);
    if !cjk {
        push_char(&mut s, ' ');
    }
    push_chars(&mut s, &vb, blo, bhi);
    assert(s@ =~= joined_text(a@, b@));
    let n: usize = chars_of(s.as_str()).len();
    (s, n)
}

/// Merge segments based on gap and sentence continuity.
fn merge_segments(segments: Vec<Segment>) -> (r: Vec<Segment>)
    requires
        times_within(cues(segments@), STAGE_LIMIT as int),
    ensures
        cues(r@) == merge_all(cues(segments@)),
{
    let n: usize = segments.len();
    if n == 0 {
        return segments;
    }
    let ghost s = cues(segments@);
    let mut result: Vec<Segment> = Vec::new();
    result.push(segments[0].duplicate());
    proof {
        assert(s.take(1) =~= seq![s[0]]);
        assert(cues(result@) =~= seq![s[0]]);
    }
    let mut i: usize = 1;
    while i < n
        invariant
            1 <= i <= n == segments.len(),
            s == cues(segments@),
            times_within(s, STAGE_LIMIT as int),
            result.len() >= 1,
            cues(result@) == merge_all(s.take(i as int)),
            times_within(cues(result@), STAGE_LIMIT as int),
        decreases n - i,
    {
        proof {
            assert(s.take(i + 1).drop_last() =~= s.take(i as int));
            assert(s.take(i + 1).last() == s[i as int]);
        }
        let ghost acc = cues(result@);
        let seg = &segments[i];
        assert(seg@ == s[i as int]);
        let last: usize = result.len() - 1;
        let prev_start: i64 = result[last].start;
        let prev_end: i64 = result[last].end;
        assert(acc.last() == result@[last as int]@);
        let gap: i128 = (seg.start as i128) - (prev_end as i128);
        let mut merged = false;
        if gap <= SPEAKER_PAUSE {
            let same_subtitle = if gap <= MERGE_GAP {
                gap >= 0
            } else {
                !ends_with_sentence(result[last].text.as_str())
            };
            if same_subtitle {
                let (text, len) = join_texts(&result[last].text, &seg.text);
                let dur: i128 = (seg.end as i128) - (prev_start as i128);
                if dur <= MAX_DURATION && len <= MAX_LINE_LEN * MAX_LINES {
                    let m = Segment { start: prev_start, end: seg.end, text };
                    proof {
                        lemma_cues_update(result@, last as int, m);
                    }
                    result.set(last, m);
                    merged = true;
                }
            }
        }
        if !merged {
            let d = seg.duplicate();
            proof {
                lemma_cues_push(result@, d);
            }
            result.push(d);
        }
        assert(cues(result@) == merge_step(acc, s[i as int]));
        i = i + 1;
    }
    assert(s.take(n as int) =~= s);
    result
}


// ── Pass 2: duration bounds ──────────────────────────────────────────────────

/// A cue shorter than `MIN_DURATION` is extended to exactly `MIN_DURATION`;
/// a cue longer than `MAX_DURATION` is cut to exactly `MAX_DURATION`; the
/// start and the text stay.
pub open spec fn pad_cue(c: Cue) -> Cue {
    if c.end - c.start < MIN_DURATION {
        Cue { start: c.start, end: c.start + MIN_DURATION, text: c.text }
    } else if c.end - c.start > MAX_DURATION {
        Cue { start: c.start, end: c.start + MAX_DURATION, text: c.text }
    } else {
        c
    }
}

pub open spec fn pad_all(s: Seq<Cue>) -> Seq<Cue> {
    s.map_values(|c: Cue| pad_cue(c))
}

/// Enforce the minimum and maximum durations.
fn enforce_duration(segments: Vec<Segment>) -> (r: Vec<Segment>)
    requires
        times_within(cues(segments@), STAGE_LIMIT as int),
    ensures
        cues(r@) == pad_all(cues(segments@)),
{
    let ghost s = cues(segments@);
    let n: usize = segments.len();
    let mut result: Vec<Segment> = Vec::new();
    let mut i: usize = 0;
    while i < n
        invariant
            i <= n == segments.len(),
            s == cues(segments@),
            times_within(s, STAGE_LIMIT as int),
            cues(result@) == pad_all(s).take(i as int),
        decreases n - i,
    {
        let seg = &segments[i];
        assert(seg@ == s[i as int]);
        assert(-STAGE_LIMIT <= s[i as int].start <= STAGE_LIMIT);
        let d = if seg.duration() < MIN_DURATION as i128 {
            Segment { start: seg.start, end: seg.start + MIN_DURATION, text: seg.text.clone() }
        } else if seg.duration() > MAX_DURATION {
            Segment { start: seg.start, end: seg.start + 8_000_000, text: seg.text.clone() }
        } else {
            seg.duplicate()
        };
        proof {
            lemma_cues_push(result@, d);
            assert(pad_all(s).take(i + 1) =~= pad_all(s).take(i as int).push(pad_cue(s[i as int])));
        }
        result.push(d);
        i = i + 1;
    }
    assert(pad_all(s).take(n as int) =~= pad_all(s));
    result
}

// ── Pass 3: CPS control ──────────────────────────────────────────────────────

/// The cue is read faster than 20 characters per second.
pub open spec fn too_fast(c: Cue) -> bool {
    let d = c.end - c.start;
    d > 0 && c.text.len() * MICROS_PER_CHAR > d
}

/// The sentence-end characters used for splitting.
pub open spec fn split_mark(cjk: bool, c: char) -> bool {
    if cjk {
        is_cjk_sentence_end(c)
    } else {
        is_en_sentence_end(c)
    }
}

pub open spec fn distance(i: int, j: int) -> int {
    if i > j {
        i - j
    } else {
        j - i
    }
}

/// `(best_split, best_distance)` after looking at the characters before
/// index `k`: the sentence end closest to the middle (the first one on a
/// tie), neither the first nor the last character, split just after it.
pub open spec fn scan_split(t: Seq<char>, cjk: bool, k: int) -> (int, int)
    decreases k,
{
    let n = t.len() as int;
    let mid = n / 2;
    if k <= 0 {
        (mid, n)
    } else {
        let prev = scan_split(t, cjk, k - 1);
        let i = k - 1;
        if split_mark(cjk, t[i]) && distance(i, mid) < prev.1 && i > 0 && i < n - 1 {
            (i + 1, distance(i, mid))
        } else {
            prev
        }
    }
}

/// Grapheme clusters of a text (extended clusters of UAX #29), as computed by
/// the `unicode-segmentation` crate.
pub uninterp spec fn grapheme_clusters(text: Seq<char>) -> Seq<Seq<char>>;

/// Where a segment text is split: at the sentence boundary nearest to the
/// middle; for CJK text at the middle grapheme boundary unless a sentence
/// boundary lies within a quarter of the graphemes from the middle.
pub open spec fn split_point(t: Seq<char>) -> int {
    let cjk = spec_is_cjk_text(t);
    let sc = scan_split(t, cjk, t.len() as int);
    if cjk {
        let g = grapheme_clusters(t);
        if sc.1 > g.len() / 4 {
            // The clusters make up the text, so this is at most its length.
            let k = g.take((g.len() / 2) as int).flatten().len() as int;
            if k <= t.len() {
                k
            } else {
                t.len() as int
            }
        } else {
            sc.0
        }
    } else {
        sc.0
    }
}

/// A segment split in two at `split_point`, the split time proportional to
/// the character position; segments of fewer than 6 characters stay whole.
pub open spec fn split_cue(c: Cue) -> Seq<Cue> {
    let n = c.text.len() as int;
    if n < 6 {
        seq![c]
    } else {
        let k = split_point(c.text);
        let t = c.start + (c.end - c.start) * k / n;
        seq![
            Cue { start: c.start, end: t, text: trim(c.text.take(k)) },
            Cue { start: t, end: c.end, text: trim(c.text.skip(k)) },
        ]
    }
}

/// The split point lies within the text.
pub proof fn lemma_split_point_bounds(t: Seq<char>)
    ensures
        0 <= split_point(t) <= t.len(),
{
    lemma_scan_split_bounds(t, spec_is_cjk_text(t), t.len() as int);
}

/// A split of a cue that does not end before it starts gives pieces that do
/// not end before they start, within the cue's span.
pub proof fn lemma_split_ordered(c: Cue)
    requires
        c.start <= c.end,
    ensures
        forall|j: int|
            0 <= j < split_cue(c).len() ==> c.start <= #[trigger] split_cue(c)[j].start
                <= split_cue(c)[j].end <= c.end,
{
    let n = c.text.len() as int;
    if n >= 6 {
        let k = split_point(c.text);
        lemma_split_point_bounds(c.text);
        let d = c.end - c.start;
        assert(0 <= d * k <= d * n) by (nonlinear_arith)
            requires
                d >= 0,
                0 <= k <= n,
        ;
        assert(0 <= d * k / n <= d) by (nonlinear_arith)
            requires
                d >= 0,
                n > 0,
                0 <= d * k <= d * n,
        ;
    }
}

/// Splitting keeps the time span: the pieces start where the segment
/// starts, end where it ends, and each piece ends where the next begins.
pub proof fn lemma_split_keeps_span(c: Cue)
    ensures
        split_cue(c).len() >= 1,
        split_cue(c)[0].start == c.start,
        split_cue(c).last().end == c.end,
        forall|i: int|
            0 <= i < split_cue(c).len() - 1 ==> #[trigger] split_cue(c)[i].end == split_cue(c)[i
                + 1].start,
{
}

pub open spec fn cps_cue(c: Cue) -> Seq<Cue> {
    if too_fast(c) && c.text.len() > 10 {
        split_cue(c)
    } else {
        seq![c]
    }
}

/// The CPS pass: too fast segments of more than 10 characters are split.
pub open spec fn cps_all(s: Seq<Cue>) -> Seq<Cue>
    decreases s.len(),
{
    if s.len() == 0 {
        seq![]
    } else {
        cps_all(s.drop_last()) + cps_cue(s.last())
    }
}

proof fn lemma_scan_split_bounds(t: Seq<char>, cjk: bool, k: int)
    requires
        k <= t.len(),
    ensures
        0 <= scan_split(t, cjk, k).0 <= t.len(),
        0 <= scan_split(t, cjk, k).1 <= t.len(),
    decreases k,
{
    if k > 0 {
        lemma_scan_split_bounds(t, cjk, k - 1);
    }
}

proof fn lemma_flatten_prefix_len(g: Seq<Seq<char>>, m: int)
    requires
        0 <= m <= g.len(),
    ensures
        g.take(m).flatten().len() <= g.flatten().len(),
{
    vstd::seq_lib::lemma_flatten_concat(g.take(m), g.skip(m));
    assert(g.take(m) + g.skip(m) =~= g);
}

/// Grapheme clusters of `text`, each as a `String`
/// (`UnicodeSegmentation::graphemes(text, true)`). The crate's iterator
/// hands out consecutive non-empty slices from the start to the end of the
/// text, so the clusters concatenate back to the text.
#[verifier::external_body]
fn graphemes_of(text: &str) -> (g: Vec<String>)
    ensures
        g.deep_view() == grapheme_clusters(text@),
        g.deep_view().flatten() == text@,
        forall|i: int| 0 <= i < g.len() ==> (#[trigger] g@[i])@.len() > 0,
{
    unicode_segmentation::UnicodeSegmentation::graphemes(text, true).map(|s| s.to_string()).collect()
}

/// `v[lo..hi]` trimmed, as a `String`.
fn trimmed_range(v: &Vec<char>, lo: usize, hi: usize) -> (s: String)
    requires
        lo <= hi <= v.len(),
    ensures
        s@ == trim(v@.subrange(lo as int, hi as int)),
{
    let w = sub_chars(v, lo, hi);
    let (a, b) = trim_bounds(&w);
    string_from(&w, a, b)
}

/// Number of characters in the first `m` grapheme clusters.
fn prefix_chars(g: &Vec<String>, m: usize, Ghost(total): Ghost<nat>) -> (n: usize)
    requires
        m <= g.len(),
        g.deep_view().flatten().len() == total,
        total <= usize::MAX,
    ensures
        n == g.deep_view().take(m as int).flatten().len(),
{
    let ghost gv = g.deep_view();
    let mut n: usize = 0;
    let mut j: usize = 0;
    while j < m
        invariant
            j <= m <= g.len(),
            gv == g.deep_view(),
            gv.flatten().len() == total,
            total <= usize::MAX,
            n == gv.take(j as int).flatten().len(),
        decreases m - j,
    {
        proof {
            assert(gv.take(j + 1) =~= gv.take(j as int).push(gv[j as int]));
            lemma_flatten_prefix_len(gv, j + 1);
            assert(gv[j as int] == g@[j as int]@);
            assert(gv.take(j + 1).flatten() == gv.take(j as int).flatten() + gv[j as int]);
        }
        let c: usize = chars_of(g[j].as_str()).len();
        n = n + c;
        j = j + 1;
    }
    n
}

/// Split a segment at the best boundary point.
fn split_segment(seg: &Segment) -> (r: Vec<Segment>)
    requires
        -STAGE_LIMIT <= seg.start <= STAGE_LIMIT,
        -STAGE_LIMIT <= seg.end <= STAGE_LIMIT,
    ensures
        cues(r@) == split_cue(seg@),
        seg.start <= seg.end ==> forall|j: int|
            0 <= j < r.len() ==> seg.start <= #[trigger] r@[j].start <= r@[j].end <= seg.end,
{
    let v = chars_of(seg.text.as_str());
    let n: usize = v.len();
    if n < 6 {
        let d = seg.duplicate();
        let r = vec![d];
        assert(cues(r@) =~= seq![seg@]);
        return r;
    }
    let ghost t = seg.text@;
    let mid: usize = n / 2;
    let mut best_split: usize = mid;
    let mut best_distance: usize = n;
    let cjk = is_cjk_chars(&v);
    let mut i: usize = 0;
    while i < n
        invariant
            i <= n == v.len(),
            v@ == t,
            mid == n / 2,
            cjk == spec_is_cjk_text(t),
            (best_split as int, best_distance as int) == scan_split(t, cjk, i as int),
        decreases n - i,
    {
        let c: char = v[i];
        let mark = if cjk {
            cjk_sentence_end(c)
        } else {
            en_sentence_end(c)
        };
        if mark {
            let dist: usize = if i > mid {
                i - mid
            } else {
                mid - i
            };
            if dist < best_distance && i > 0 && i < n - 1 {
                best_distance = dist;
                best_split = i + 1;
            }
        }
        i = i + 1;
    }
    if cjk {
        let g = graphemes_of(seg.text.as_str());
        let gl: usize = g.len();
        assert(g.deep_view().len() == gl);
        if best_distance > gl / 4 {
            best_split = prefix_chars(&g, gl / 2, Ghost(n as nat));
            proof {
                lemma_flatten_prefix_len(g.deep_view(), (gl / 2) as int);
            }
        }
    }
    proof {
        lemma_scan_split_bounds(t, cjk, n as int);
    }
    assert(best_split == split_point(t));
    let text1 = trimmed_range(&v, 0, best_split);
    let text2 = trimmed_range(&v, best_split, n);
    assert(v@.subrange(0, best_split as int) =~= t.take(best_split as int));
    assert(v@.subrange(best_split as int, n as int) =~= t.skip(best_split as int));
    let dur: i128 = seg.duration();
    proof {
        lemma_split_point_bounds(t);
        if seg.start <= seg.end {
            lemma_split_ordered(seg@);
        }
        assert(-0x4000_0000_0000_0000int * 0x1_0000_0000_0000_0000int <= dur * best_split
            <= 0x4000_0000_0000_0000int * 0x1_0000_0000_0000_0000int) by (nonlinear_arith)
            requires
                -0x4000_0000_0000_0000int <= dur <= 0x4000_0000_0000_0000int,
                0 <= best_split <= n < 0x1_0000_0000_0000_0000int,
        ;
    }
    let prod: i128 = dur * (best_split as i128);
    let nn: i128 = n as i128;
    let q: i128 = if prod >= 0 {
        prod / nn
    } else {
        let a: i128 = -prod;
        let qa: i128 = (a + nn - 1) / nn;
        proof {
            let pi = prod as int;
            let ni = nn as int;
            vstd::arithmetic::div_mod::lemma_fundamental_div_mod(pi, ni);
            vstd::arithmetic::div_mod::lemma_fundamental_div_mod(-pi + ni - 1, ni);
            let f = pi / ni;
            let r0 = pi % ni;
            let g = (-pi + ni - 1) / ni;
            let r1 = (-pi + ni - 1) % ni;
            assert(pi == ni * f + r0 && 0 <= r0 < ni);
            assert(-pi + ni - 1 == ni * g + r1 && 0 <= r1 < ni);
            assert(ni * (f + g) == ni * f + ni * g) by (nonlinear_arith);
            assert(ni * (f + g) == ni - 1 - r0 - r1);
            assert(f + g == 0) by (nonlinear_arith)
                requires
                    ni * (f + g) == ni - 1 - r0 - r1,
                    0 <= r0 < ni,
                    0 <= r1 < ni,
            ;
        }
        -qa
    };
    proof {
        if seg.start <= seg.end {
            assert(0 <= dur * best_split <= dur * n) by (nonlinear_arith)
                requires
                    dur >= 0,
                    0 <= best_split <= n,
            ;
            assert(0 <= dur * best_split / (n as int) <= dur) by (nonlinear_arith)
                requires
                    dur >= 0,
                    n > 0,
                    0 <= dur * best_split <= dur * n,
            ;
        }
        assert(-0x4000_0000_0000_0000int <= q <= 0x4000_0000_0000_0000int) by (nonlinear_arith)
            requires
                q == dur * best_split / (n as int),
                -0x4000_0000_0000_0000int <= dur <= 0x4000_0000_0000_0000int,
                0 <= best_split <= n,
                n > 0,
        ;
    }
    let split_time: i64 = ((seg.start as i128) + q) as i64;
    let r = vec![
        Segment { start: seg.start, end: split_time, text: text1 },
        Segment { start: split_time, end: seg.end, text: text2 },
    ];
    assert(cues(r@) =~= split_cue(seg@));
    r
}

/// Split segments that exceed the CPS threshold.
fn enforce_cps(segments: Vec<Segment>) -> (r: Vec<Segment>)
    requires
        times_within(cues(segments@), STAGE_LIMIT as int),
    ensures
        cues(r@) == cps_all(cues(segments@)),
        times_within(cues(r@), STAGE_LIMIT as int),
{
    let ghost s = cues(segments@);
    let n: usize = segments.len();
    let mut result: Vec<Segment> = Vec::new();
    let mut i: usize = 0;
    while i < n
        invariant
            i <= n == segments.len(),
            s == cues(segments@),
            times_within(s, STAGE_LIMIT as int),
            cues(result@) == cps_all(s.take(i as int)),
            times_within(cues(result@), STAGE_LIMIT as int),
        decreases n - i,
    {
        let seg = &segments[i];
        assert(seg@ == s[i as int]);
        assert(-STAGE_LIMIT <= s[i as int].start <= STAGE_LIMIT);
        assert(s.take(i + 1).drop_last() =~= s.take(i as int));
        let dur: i128 = seg.duration();
        let count: usize = seg.char_count();
        let fast = dur > 0 && (count as i128) * MICROS_PER_CHAR > dur;
        let ghost before = result@;
        if fast && count > 10 {
            let parts = split_segment(seg);
            let mut j: usize = 0;
            while j < parts.len()
                invariant
                    j <= parts.len(),
                    cues(result@) == cues(before) + cues(parts@).take(j as int),
                    times_within(cues(result@), STAGE_LIMIT as int),
                    forall|k: int|
                        0 <= k < parts.len() ==> seg.start <= #[trigger] parts@[k].start
                            <= seg.end && seg.start <= parts@[k].end <= seg.end,
                    -STAGE_LIMIT <= seg.start <= STAGE_LIMIT,
                    -STAGE_LIMIT <= seg.end <= STAGE_LIMIT,
                decreases parts.len() - j,
            {
                let d = parts[j].duplicate();
                proof {
                    lemma_cues_push(result@, d);
                    assert(cues(parts@).take(j + 1) =~= cues(parts@).take(j as int).push(d@));
                }
                result.push(d);
                j = j + 1;
            }
            assert(cues(parts@).take(parts.len() as int) =~= cues(parts@));
        } else {
            let d = seg.duplicate();
            proof {
                lemma_cues_push(result@, d);
            }
            result.push(d);
            assert(cues(result@) =~= cues(before) + seq![seg@]);
        }
        i = i + 1;
    }
    assert(s.take(n as int) =~= s);
    result
}


// ── Pass 4: line formatting ──────────────────────────────────────────────────

/// Characters after which a line may be broken: space, comma, CJK sentence end.
pub open spec fn break_char(c: char) -> bool {
    c == ' ' || c == ',' || is_cjk_sentence_end(c)
}

pub open spec fn sat_sub(a: int, b: int) -> int {
    if a >= b {
        a - b
    } else {
        0
    }
}

/// Line-break search from offset `o`: at each offset, try `mid + o` then
/// `mid - o`; break after the first break character found, unless that
/// lands back on `mid`, in which case the search goes on.
pub open spec fn spec_line_break_from(t: Seq<char>, mid: int, o: int) -> int
    decreases mid / 2 + 1 - o,
{
    if o < 0 || o > mid / 2 {
        mid
    } else {
        let first = mid + o;
        let second = sat_sub(mid, o);
        let b = if first < t.len() && break_char(t[first]) {
            first + 1
        } else if second < t.len() && break_char(t[second]) {
            second + 1
        } else {
            mid
        };
        if b != mid {
            b
        } else {
            spec_line_break_from(t, mid, o + 1)
        }
    }
}

/// `t[..b]` and `t[b..e]`, each trimmed, on two lines.
pub open spec fn broken_at(t: Seq<char>, b: int, e: int) -> Seq<char> {
    trim(t.take(b)) + seq!['\n'] + trim(t.subrange(b, e))
}

/// Formatting keeps subtitles within two lines of at most 42 characters.
/// Text fitting one line is trimmed. Longer text is broken near its middle,
/// at a space, comma or CJK sentence end when one is close; when a line
/// would still be too long, or the text holds more than two lines' worth,
/// it is broken after 42 characters and cut after 84.
pub open spec fn format_cue(c: Cue) -> Cue {
    let t = trim(c.text);
    let n = t.len() as int;
    let b = spec_line_break_from(t, n / 2, 0);
    let text = if n <= MAX_LINE_LEN {
        t
    } else if n <= MAX_LINE_LEN * MAX_LINES && trim(t.take(b)).len() <= MAX_LINE_LEN && trim(
        t.subrange(b, n),
    ).len() <= MAX_LINE_LEN {
        broken_at(t, b, n)
    } else {
        broken_at(
            t,
            MAX_LINE_LEN as int,
            if n <= MAX_LINE_LEN * MAX_LINES {
                n
            } else {
                (MAX_LINE_LEN * MAX_LINES) as int
            },
        )
    };
    Cue { start: c.start, end: c.end, text }
}

pub open spec fn format_all(s: Seq<Cue>) -> Seq<Cue> {
    s.map_values(|c: Cue| format_cue(c))
}

proof fn lemma_line_break_bounds(t: Seq<char>, mid: int, o: int)
    requires
        0 <= mid <= t.len(),
        0 <= o,
    ensures
        0 <= spec_line_break_from(t, mid, o) <= t.len(),
    decreases mid / 2 + 1 - o,
{
    if o <= mid / 2 {
        lemma_line_break_bounds(t, mid, o + 1);
    }
}

/// Text without a line break.
pub open spec fn single_line(t: Seq<char>) -> bool {
    forall|i: int| 0 <= i < t.len() ==> t[i] != '\n'
}

proof fn lemma_trim_parts(t: Seq<char>)
    ensures
        trim(t).len() <= t.len(),
        single_line(t) ==> single_line(trim(t)),
{
    lemma_leading_white(t);
    let a = t.skip(leading_white(t) as int);
    lemma_trailing_white(a);
    if single_line(t) {
        assert forall|i: int| 0 <= i < trim(t).len() implies trim(t)[i] != '\n' by {
            assert(trim(t)[i] == t[i + leading_white(t)]);
        }
    }
}

proof fn lemma_single_line_sub(t: Seq<char>, b: int, e: int)
    requires
        single_line(t),
        0 <= b <= e <= t.len(),
    ensures
        single_line(t.subrange(b, e)),
{
    assert forall|i: int| 0 <= i < t.subrange(b, e).len() implies t.subrange(b, e)[i] != '\n' by {
        assert(t.subrange(b, e)[i] == t[i + b]);
    }
}

/// Text on one line of at most 42 characters, or on two such lines.
pub open spec fn fits_two_lines(t: Seq<char>) -> bool {
    ||| single_line(t) && t.len() <= MAX_LINE_LEN
    ||| exists|l1: Seq<char>, l2: Seq<char>|
        single_line(l1) && single_line(l2) && l1.len() <= MAX_LINE_LEN && l2.len() <= MAX_LINE_LEN
            && t == l1 + seq!['\n'] + l2
}

/// Formatting a one-line text gives one or two lines of at most 42
/// characters each.
pub proof fn lemma_format_fits(c: Cue)
    requires
        single_line(c.text),
    ensures
        fits_two_lines(format_cue(c).text),
{
    let t = trim(c.text);
    lemma_trim_parts(c.text);
    let n = t.len() as int;
    if n > MAX_LINE_LEN {
        let b = spec_line_break_from(t, n / 2, 0);
        lemma_line_break_bounds(t, n / 2, 0);
        let e = if n <= MAX_LINE_LEN * MAX_LINES {
            n
        } else {
            (MAX_LINE_LEN * MAX_LINES) as int
        };
        lemma_single_line_sub(t, 0, b);
        lemma_single_line_sub(t, b, n);
        lemma_single_line_sub(t, 0, MAX_LINE_LEN as int);
        lemma_single_line_sub(t, MAX_LINE_LEN as int, e);
        assert(t.take(b) =~= t.subrange(0, b));
        assert(t.take(MAX_LINE_LEN as int) =~= t.subrange(0, MAX_LINE_LEN as int));
        lemma_trim_parts(t.take(b));
        lemma_trim_parts(t.subrange(b, n));
        lemma_trim_parts(t.take(MAX_LINE_LEN as int));
        lemma_trim_parts(t.subrange(MAX_LINE_LEN as int, e));
        if n <= MAX_LINE_LEN * MAX_LINES && trim(t.take(b)).len() <= MAX_LINE_LEN && trim(
            t.subrange(b, n),
        ).len() <= MAX_LINE_LEN {
            let l1 = trim(t.take(b));
            let l2 = trim(t.subrange(b, n));
            assert(format_cue(c).text == l1 + seq!['\n'] + l2);
        } else {
            let l1 = trim(t.take(MAX_LINE_LEN as int));
            let l2 = trim(t.subrange(MAX_LINE_LEN as int, e));
            assert(format_cue(c).text == l1 + seq!['\n'] + l2);
        }
    }
}

fn line_break_from(t: &Vec<char>, mid: usize, o: usize) -> (b: usize)
    requires
        mid <= t.len() / 2,
    ensures
        b == spec_line_break_from(t@, mid as int, o as int),
    decreases mid / 2 + 1 - o,
{
    if o > mid / 2 {
        return mid;
    }
    let first: usize = mid + o;
    let second: usize = if mid >= o {
        mid - o
    } else {
        0
    };
    let b: usize = if first < t.len() && (t[first] == ' ' || t[first] == ',' || cjk_sentence_end(
        t[first],
    )) {
        first + 1
    } else if second < t.len() && (t[second] == ' ' || t[second] == ',' || cjk_sentence_end(
        t[second],
    )) {
        second + 1
    } else {
        mid
    };
    if b != mid {
        b
    } else {
        line_break_from(t, mid, o + 1)
    }
}

/// `t` broken in two lines at the balanced break position.
/// `t[..b]` and `t[b..e]` trimmed, on two lines, with the lengths of the
/// two lines.
fn lines_at(t: &Vec<char>, b: usize, e: usize) -> (r: (String, usize, usize))
    requires
        b <= e <= t.len(),
    ensures
        r.0@ == broken_at(t@, b as int, e as int),
        r.1 == trim(t@.take(b as int)).len(),
        r.2 == trim(t@.subrange(b as int, e as int)).len(),
{
    let mut text = trimmed_range(t, 0, b);
    assert(t@.subrange(0, b as int) =~= t@.take(b as int));
    let l1: usize = chars_of(text.as_str()).len();
    let second = trimmed_range(t, b, e);
    let sv = chars_of(second.as_str());
    push_char(&mut text, '\n');
    push_chars(&mut text, &sv, 0, sv.len());
    assert(sv@.subrange(0, sv.len() as int) =~= sv@);
    assert(text@ =~= broken_at(t@, b as int, e as int));
    (text, l1, sv.len())
}

fn format_segment(seg: &Segment) -> (r: Segment)
    ensures
        r@ == format_cue(seg@),
{
    let v = chars_of(seg.text.as_str());
    let (lo, hi) = trim_bounds(&v);
    let t = sub_chars(&v, lo, hi);
    assert(t@ == trim(seg.text@));
    let n: usize = t.len();
    if n <= MAX_LINE_LEN {
        let text = string_from(&t, 0, n);
        assert(t@.subrange(0, n as int) =~= t@);
        return Segment { start: seg.start, end: seg.end, text };
    }
    let mid: usize = n / 2;
    let b: usize = line_break_from(&t, mid, 0);
    proof {
        lemma_line_break_bounds(t@, mid as int, 0);
    }
    if n <= MAX_LINE_LEN * MAX_LINES {
        let (text, l1, l2) = lines_at(&t, b, n);
        if l1 <= MAX_LINE_LEN && l2 <= MAX_LINE_LEN {
            return Segment { start: seg.start, end: seg.end, text };
        }
    }
    let e: usize = if n <= MAX_LINE_LEN * MAX_LINES {
        n
    } else {
        MAX_LINE_LEN * MAX_LINES
    };
    let (text, _, _) = lines_at(&t, MAX_LINE_LEN, e);
    Segment { start: seg.start, end: seg.end, text }
}

/// Format text to respect max lines and line length.
fn format_lines(segments: Vec<Segment>) -> (r: Vec<Segment>)
    ensures
        cues(r@) == format_all(cues(segments@)),
        forall|i: int|
            0 <= i < r.len() && single_line(segments@[i].text@) ==> fits_two_lines(
                #[trigger] r@[i].text@,
            ),
{
    let ghost s = cues(segments@);
    let n: usize = segments.len();
    let mut result: Vec<Segment> = Vec::new();
    let mut i: usize = 0;
    while i < n
        invariant
            i <= n == segments.len(),
            s == cues(segments@),
            cues(result@) == format_all(s).take(i as int),
        decreases n - i,
    {
        let d = format_segment(&segments[i]);
        proof {
            lemma_cues_push(result@, d);
            assert(format_all(s).take(i + 1) =~= format_all(s).take(i as int).push(
                format_cue(s[i as int]),
            ));
        }
        result.push(d);
        i = i + 1;
    }
    assert(format_all(s).take(n as int) =~= format_all(s));
    assert forall|i: int|
        0 <= i < result.len() && single_line(segments@[i].text@) implies fits_two_lines(
        #[trigger] result@[i].text@,
    ) by {
        assert(s[i] == segments@[i]@);
        assert(cues(result@)[i] == result@[i]@);
        lemma_format_fits(s[i]);
    }
    result
}

// ── Pass 5: overlaps ─────────────────────────────────────────────────────────

/// End of cue `j` once overlaps are fixed: when it runs past the start of the
/// next cue it is pulled back to 0.05 s before that start, but never before
/// its own start.
pub open spec fn fixed_end(s: Seq<Cue>, j: int) -> int {
    if j + 1 < s.len() && s[j].end > s[j + 1].start {
        let e = s[j + 1].start - OVERLAP_MARGIN;
        if e > s[j].start {
            e
        } else {
            s[j].start
        }
    } else {
        s[j].end
    }
}

pub open spec fn fix_all(s: Seq<Cue>) -> Seq<Cue> {
    Seq::new(s.len(), |j: int| Cue { start: s[j].start, end: fixed_end(s, j), text: s[j].text })
}

/// Fix any remaining overlaps.
fn fix_overlaps(segments: Vec<Segment>) -> (r: Vec<Segment>)
    requires
        times_within(cues(segments@), STAGE_LIMIT as int),
    ensures
        cues(r@) == fix_all(cues(segments@)),
        times_within(cues(r@), STAGE_LIMIT as int),
{
    let ghost s = cues(segments@);
    let n: usize = segments.len();
    let mut segs = segments;
    let mut i: usize = 1;
    while i < n
        invariant
            1 <= i,
            n == segs.len() == s.len(),
            i <= n || n == 0,
            times_within(s, STAGE_LIMIT as int),
            forall|j: int| 0 <= j < i - 1 && j < n ==> #[trigger] segs@[j]@ == fix_all(s)[j],
            forall|j: int| i - 1 <= j < n ==> #[trigger] segs@[j]@ == s[j],
        decreases n - i,
    {
        assert(segs@[i - 1]@ == s[i - 1]);
        assert(segs@[i as int]@ == s[i as int]);
        assert(-STAGE_LIMIT <= s[i as int].start <= STAGE_LIMIT);
        if segs[i - 1].end > segs[i].start {
            let e: i64 = segs[i].start - OVERLAP_MARGIN;
            let new_end: i64 = if e > segs[i - 1].start {
                e
            } else {
                segs[i - 1].start
            };
            let u = Segment { start: segs[i - 1].start, end: new_end, text: segs[i - 1].text.clone() };
            segs.set(i - 1, u);
        }
        assert(segs@[i - 1]@ == fix_all(s)[i - 1]);
        i = i + 1;
    }
    assert(cues(segs@) =~= fix_all(s));
    assert forall|j: int| 0 <= j < fix_all(s).len() implies -STAGE_LIMIT <= #[trigger] fix_all(
        s,
    )[j].start <= STAGE_LIMIT && -STAGE_LIMIT <= fix_all(s)[j].end <= STAGE_LIMIT by {
        assert(-STAGE_LIMIT <= s[j].start <= STAGE_LIMIT);
        if j + 1 < s.len() {
            assert(-STAGE_LIMIT <= s[j + 1].start <= STAGE_LIMIT);
        }
    }
    segs
}

// ── Pass 6: rounding ─────────────────────────────────────────────────────────

/// `t` rounded to the nearest multiple of 10 000 µs, halves away from zero.
pub open spec fn round_time(t: int) -> int {
    let u = ROUND_UNIT as int;
    if t >= 0 {
        (t + u / 2) / u * u
    } else {
        -((-t + u / 2) / u * u)
    }
}

pub open spec fn round_cue(c: Cue) -> Cue {
    Cue { start: round_time(c.start), end: round_time(c.end), text: c.text }
}

pub open spec fn round_all(s: Seq<Cue>) -> Seq<Cue> {
    s.map_values(|c: Cue| round_cue(c))
}

fn round_micros(t: i64) -> (r: i64)
    requires
        -STAGE_LIMIT <= t <= STAGE_LIMIT,
    ensures
        r == round_time(t as int),
{
    if t >= 0 {
        (t + ROUND_UNIT / 2) / ROUND_UNIT * ROUND_UNIT
    } else {
        -((-t + ROUND_UNIT / 2) / ROUND_UNIT * ROUND_UNIT)
    }
}

/// Round timestamps to 2 decimal places.
fn round_timestamps(segments: Vec<Segment>) -> (r: Vec<Segment>)
    requires
        times_within(cues(segments@), STAGE_LIMIT as int),
    ensures
        cues(r@) == round_all(cues(segments@)),
{
    let ghost s = cues(segments@);
    let n: usize = segments.len();
    let mut result: Vec<Segment> = Vec::new();
    let mut i: usize = 0;
    while i < n
        invariant
            i <= n == segments.len(),
            s == cues(segments@),
            times_within(s, STAGE_LIMIT as int),
            cues(result@) == round_all(s).take(i as int),
        decreases n - i,
    {
        let seg = &segments[i];
        assert(seg@ == s[i as int]);
        assert(-STAGE_LIMIT <= s[i as int].start <= STAGE_LIMIT);
        let d = Segment {
            start: round_micros(seg.start),
            end: round_micros(seg.end),
            text: seg.text.clone(),
        };
        proof {
            lemma_cues_push(result@, d);
            assert(round_all(s).take(i + 1) =~= round_all(s).take(i as int).push(
                round_cue(s[i as int]),
            ));
        }
        result.push(d);
        i = i + 1;
    }
    assert(round_all(s).take(n as int) =~= round_all(s));
    result
}

// ── The whole stage ──────────────────────────────────────────────────────────

/// The six passes of post-processing, in order.
pub open spec fn spec_process(s: Seq<Cue>) -> Seq<Cue> {
    if s.len() == 0 {
        s
    } else {
        round_all(fix_all(format_all(cps_all(pad_all(merge_all(s))))))
    }
}

proof fn lemma_pad_bound(s: Seq<Cue>, b: int)
    requires
        times_within(s, b),
        b >= 0,
    ensures
        times_within(pad_all(s), b + MIN_DURATION),
{
    assert forall|i: int| 0 <= i < pad_all(s).len() implies -(b + MIN_DURATION) <= #[trigger] pad_all(
        s,
    )[i].start <= b + MIN_DURATION && -(b + MIN_DURATION) <= pad_all(s)[i].end <= b
        + MIN_DURATION by {
        assert(-b <= s[i].start <= b);
    }
}

proof fn lemma_format_times(s: Seq<Cue>, b: int)
    requires
        times_within(s, b),
    ensures
        times_within(format_all(s), b),
{
    assert forall|i: int| 0 <= i < format_all(s).len() implies -b <= #[trigger] format_all(
        s,
    )[i].start <= b && -b <= format_all(s)[i].end <= b by {
        assert(-b <= s[i].start <= b);
    }
}

/// Stage 4: full commercial-grade post-processing.
pub fn process(segments: Vec<Segment>) -> (r: Vec<Segment>)
    requires
        times_within(cues(segments@), TIME_LIMIT as int),
    ensures
        cues(r@) == spec_process(cues(segments@)),
        forall|i: int| 0 <= i < r.len() ==> #[trigger] r@[i].start <= r@[i].end,
{
    proof {
        lemma_process_ordered(cues(segments@));
    }
    if segments.len() == 0 {
        return segments;
    }
    let ghost s = cues(segments@);
    proof {
        assert(times_within(s, STAGE_LIMIT as int));
        lemma_merge_all_shape(s);
        lemma_pad_bound(merge_all(s), TIME_LIMIT as int);
    }
    let result = merge_segments(segments);
    let result = enforce_duration(result);
    let result = enforce_cps(result);
    let result = format_lines(result);
    proof {
        lemma_format_times(cues(result@), STAGE_LIMIT as int);
    }
    let result = fix_overlaps(result);
    let result = round_timestamps(result);
    assert forall|i: int| 0 <= i < result.len() implies #[trigger] result@[i].start
        <= result@[i].end by {
        assert(cues(result@)[i] == result@[i]@);
    }
    result
}


// ── Laws ─────────────────────────────────────────────────────────────────────

/// Rounding is monotone.
pub proof fn lemma_round_monotone(a: int, b: int)
    requires
        a <= b,
    ensures
        round_time(a) <= round_time(b),
{
    let u = ROUND_UNIT as int;
    if a >= 0 {
        vstd::arithmetic::div_mod::lemma_div_is_ordered(a + u / 2, b + u / 2, u);
        vstd::arithmetic::mul::lemma_mul_inequality((a + u / 2) / u, (b + u / 2) / u, u);
    } else if b < 0 {
        vstd::arithmetic::div_mod::lemma_div_is_ordered(-b + u / 2, -a + u / 2, u);
        vstd::arithmetic::mul::lemma_mul_inequality((-b + u / 2) / u, (-a + u / 2) / u, u);
    } else {
        assert((-a + u / 2) / u >= 0) by (nonlinear_arith)
            requires
                -a + u / 2 >= 0,
                u > 0,
        ;
        assert((b + u / 2) / u >= 0) by (nonlinear_arith)
            requires
                b + u / 2 >= 0,
                u > 0,
        ;
        assert((-a + u / 2) / u * u >= 0) by (nonlinear_arith)
            requires
                (-a + u / 2) / u >= 0,
                u > 0,
        ;
        assert((b + u / 2) / u * u >= 0) by (nonlinear_arith)
            requires
                (b + u / 2) / u >= 0,
                u > 0,
        ;
    }
}

/// A rounded time is a whole number of hundredths of a second, at most half
/// a hundredth away from the time it rounds.
pub proof fn lemma_round_time(t: int)
    ensures
        round_time(t) % (ROUND_UNIT as int) == 0,
        t - ROUND_UNIT / 2 <= round_time(t) <= t + ROUND_UNIT / 2,
{
    let u = ROUND_UNIT as int;
    if t >= 0 {
        let q = (t + u / 2) / u;
        vstd::arithmetic::div_mod::lemma_mod_multiples_basic(q, u);
        vstd::arithmetic::div_mod::lemma_fundamental_div_mod(t + u / 2, u);
        assert(0 <= (t + u / 2) % u < u);
    } else {
        let q = (-t + u / 2) / u;
        vstd::arithmetic::div_mod::lemma_mod_multiples_basic(-q, u);
        assert(-(q * u) == (-q) * u) by (nonlinear_arith);
        vstd::arithmetic::div_mod::lemma_fundamental_div_mod(-t + u / 2, u);
        assert(0 <= (-t + u / 2) % u < u);
    }
}

/// Every time that post-processing outputs is rounded to hundredths of a
/// second.
pub proof fn lemma_process_rounded(s: Seq<Cue>)
    ensures
        forall|i: int|
            0 <= i < spec_process(s).len() ==> #[trigger] spec_process(s)[i].start % (
            ROUND_UNIT as int) == 0 && spec_process(s)[i].end % (ROUND_UNIT as int) == 0,
{
    if s.len() > 0 {
        let f = fix_all(format_all(cps_all(pad_all(merge_all(s)))));
        assert forall|i: int| 0 <= i < spec_process(s).len() implies #[trigger] spec_process(
            s,
        )[i].start % (ROUND_UNIT as int) == 0 && spec_process(s)[i].end % (ROUND_UNIT as int)
            == 0 by {
            lemma_round_time(f[i].start);
            lemma_round_time(f[i].end);
        }
    }
}

/// After overlap fixing and rounding, a subtitle never runs past the start
/// of the next one when the next one does not start earlier.
pub proof fn lemma_fix_round_no_overlap(s: Seq<Cue>, i: int)
    requires
        0 <= i,
        i + 1 < s.len(),
        round_all(fix_all(s))[i].start <= round_all(fix_all(s))[i + 1].start,
    ensures
        round_all(fix_all(s))[i].end <= round_all(fix_all(s))[i + 1].start,
{
    let f = fix_all(s);
    if s[i].end > s[i + 1].start {
        if s[i + 1].start - OVERLAP_MARGIN > s[i].start {
            lemma_round_monotone(f[i].end, f[i + 1].start);
        }
    } else {
        lemma_round_monotone(f[i].end, f[i + 1].start);
    }
}

/// Post-processed subtitles do not overlap: whenever a subtitle does not
/// start later than the next one, it ends no later than the next one starts.
pub proof fn lemma_process_no_overlap(s: Seq<Cue>)
    ensures
        forall|i: int|
            0 <= i && i + 1 < spec_process(s).len() && #[trigger] spec_process(s)[i].start
                <= spec_process(s)[i + 1].start ==> spec_process(s)[i].end <= spec_process(
                s,
            )[i + 1].start,
{
    if s.len() > 0 {
        let f = format_all(cps_all(pad_all(merge_all(s))));
        assert forall|i: int|
            0 <= i && i + 1 < spec_process(s).len() && #[trigger] spec_process(s)[i].start
                <= spec_process(s)[i + 1].start implies spec_process(s)[i].end <= spec_process(
            s,
        )[i + 1].start by {
            lemma_fix_round_no_overlap(f, i);
        }
    }
}

/// Number of speaker pauses: consecutive segments more than 1.5 s apart.
pub open spec fn pause_count(s: Seq<Cue>) -> nat
    decreases s.len(),
{
    if s.len() <= 1 {
        0
    } else {
        pause_count(s.drop_last()) + if s.last().start - s[s.len() - 2].end > SPEAKER_PAUSE {
            1nat
        } else {
            0nat
        }
    }
}

/// Merging never joins across a speaker pause: there are at least as many
/// merged subtitles as pauses plus one.
pub proof fn lemma_merge_keeps_pauses(s: Seq<Cue>)
    requires
        s.len() > 0,
    ensures
        merge_all(s).len() >= 1 + pause_count(s),
    decreases s.len(),
{
    if s.len() > 1 {
        lemma_merge_keeps_pauses(s.drop_last());
        lemma_merge_all_shape(s.drop_last());
        assert(s.drop_last().last() == s[s.len() - 2]);
    }
}

proof fn lemma_cps_all_len(s: Seq<Cue>)
    ensures
        cps_all(s).len() >= s.len(),
    decreases s.len(),
{
    if s.len() > 0 {
        lemma_cps_all_len(s.drop_last());
    }
}

/// No cue of `s` ends before it starts.
pub open spec fn all_ordered(s: Seq<Cue>) -> bool {
    forall|i: int| 0 <= i < s.len() ==> (#[trigger] s[i]).start <= s[i].end
}

proof fn lemma_cps_ordered(s: Seq<Cue>)
    requires
        all_ordered(s),
    ensures
        all_ordered(cps_all(s)),
    decreases s.len(),
{
    if s.len() > 0 {
        let d = s.drop_last();
        assert forall|i: int| 0 <= i < d.len() implies (#[trigger] d[i]).start <= d[i].end by {
            assert(d[i] == s[i]);
        }
        lemma_cps_ordered(d);
        let c = s.last();
        assert(c == s[s.len() - 1]);
        lemma_split_ordered(c);
        let a = cps_all(d);
        let b = cps_cue(c);
        assert(cps_all(s) == a + b);
        assert forall|i: int| 0 <= i < cps_all(s).len() implies (#[trigger] cps_all(s)[i]).start
            <= cps_all(s)[i].end by {
            if i < a.len() {
                assert(cps_all(s)[i] == a[i]);
            } else {
                assert(cps_all(s)[i] == b[i - a.len()]);
            }
        }
    }
}

/// No subtitle that post-processing outputs ends before it starts.
pub proof fn lemma_process_ordered(s: Seq<Cue>)
    ensures
        all_ordered(spec_process(s)),
{
    if s.len() > 0 {
        let p = pad_all(merge_all(s));
        lemma_pad_duration_bounds(merge_all(s));
        assert(all_ordered(p));
        lemma_cps_ordered(p);
        let c = cps_all(p);
        let f = format_all(c);
        assert forall|i: int| 0 <= i < f.len() implies (#[trigger] f[i]).start <= f[i].end by {
            assert(f[i].start == c[i].start && f[i].end == c[i].end);
            assert(c[i].start <= c[i].end);
        }
        let x = fix_all(f);
        assert forall|i: int| 0 <= i < x.len() implies (#[trigger] x[i]).start <= x[i].end by {
            assert(f[i].start <= f[i].end);
        }
        let r = round_all(x);
        assert forall|i: int| 0 <= i < r.len() implies (#[trigger] r[i]).start <= r[i].end by {
            assert(x[i].start <= x[i].end);
            lemma_round_monotone(x[i].start, x[i].end);
        }
    }
}

/// Post-processing keeps every speaker pause as a subtitle boundary: it
/// outputs at least one subtitle more than there are pauses in its input.
pub proof fn lemma_process_keeps_pauses(s: Seq<Cue>)
    requires
        s.len() > 0,
    ensures
        spec_process(s).len() >= 1 + pause_count(s),
{
    lemma_merge_keeps_pauses(s);
    lemma_cps_all_len(pad_all(merge_all(s)));
}

/// After the duration pass every subtitle lasts at least 1.2 s and at most
/// 8 s, keeps its start and text, and one that already lasted between
/// 1.2 s and 8 s is unchanged.
pub proof fn lemma_pad_duration_bounds(s: Seq<Cue>)
    ensures
        pad_all(s).len() == s.len(),
        forall|i: int|
            0 <= i < s.len() ==> {
                &&& MIN_DURATION <= #[trigger] pad_all(s)[i].end - pad_all(s)[i].start
                    <= MAX_DURATION
                &&& pad_all(s)[i].start == s[i].start
                &&& pad_all(s)[i].text == s[i].text
                &&& (MIN_DURATION <= s[i].end - s[i].start <= MAX_DURATION ==> pad_all(s)[i]
                    == s[i])
            },
{
}

} // verus!

//! Audio extraction with ffmpeg and duration probing with ffprobe: the
//! command lines, the reading of their output and their errors.
//!
//! Running the programs is the caller's business.
use vstd::prelude::*;
use crate::error::AutoSubError;
use crate::sensevoice::debug_code;
use crate::srt::{all_digits, digits_value, parse_micros, parse_micros_chars, read_digits, split_seq};
use crate::text::{chars_of, push_chars, sub_chars, trim, trim_bounds};

verus! {

broadcast use vstd::seq_lib::group_seq_properties;

/// Arguments of ffmpeg: decode `video_path`, drop the video, write 16 kHz
/// mono 16-bit PCM WAV to `output_path`, report progress on standard error.
pub open spec fn spec_ffmpeg_args(video_path: Seq<char>, output_path: Seq<char>) -> Seq<Seq<char>> {
    seq![
        "-y"@,
        "-i"@,
        video_path,
        "-vn"@,
        "-acodec"@,
        "pcm_s16le"@,
        "-ac"@,
        "1"@,
        "-ar"@,
        "16000"@,
        "-f"@,
        "wav"@,
        output_path,
        "-progress"@,
        "pipe:2"@,
    ]
}

/// Arguments of ffmpeg for extracting the audio of `video_path`.
pub fn ffmpeg_args(video_path: &str, output_path: &str) -> (r: Vec<String>)
    ensures
        r.deep_view() == spec_ffmpeg_args(video_path@, output_path@),
{
    let r = vec![
        "-y".to_owned(),
        "-i".to_owned(),
        video_path.to_owned(),
        "-vn".to_owned(),
        "-acodec".to_owned(),
        "pcm_s16le".to_owned(),
        "-ac".to_owned(),
        "1".to_owned(),
        "-ar".to_owned(),
        "16000".to_owned(),
        "-f".to_owned(),
        "wav".to_owned(),
        output_path.to_owned(),
        "-progress".to_owned(),
        "pipe:2".to_owned(),
    ];
    assert(r.deep_view() =~= spec_ffmpeg_args(video_path@, output_path@));
    r
}

/// Arguments of ffprobe for the duration of `video_path`.
pub open spec fn spec_ffprobe_args(video_path: Seq<char>) -> Seq<Seq<char>> {
    seq!["-v"@, "error"@, "-show_entries"@, "format=duration"@, "-of"@, "csv=p=0"@, video_path]
}

/// Arguments of ffprobe for the duration of `video_path`.
pub fn ffprobe_args(video_path: &str) -> (r: Vec<String>)
    ensures
        r.deep_view() == spec_ffprobe_args(video_path@),
{
    let r = vec![
        "-v".to_owned(),
        "error".to_owned(),
        "-show_entries".to_owned(),
        "format=duration".to_owned(),
        "-of".to_owned(),
        "csv=p=0".to_owned(),
        video_path.to_owned(),
    ];
    assert(r.deep_view() =~= spec_ffprobe_args(video_path@));
    r
}

/// Pieces joined with `sep` between them.
pub open spec fn join_with(pieces: Seq<Seq<char>>, sep: Seq<char>) -> Seq<char>
    decreases pieces.len(),
{
    if pieces.len() == 0 {
        seq![]
    } else if pieces.len() == 1 {
        pieces[0]
    } else {
        join_with(pieces.drop_last(), sep) + sep + pieces.last()
    }
}

/// `s.replace(from, to)` for a non-empty `from`.
pub open spec fn replace_all(s: Seq<char>, from: Seq<char>, to: Seq<char>) -> Seq<char> {
    join_with(split_seq(s, from), to)
}

/// The ffprobe binary next to an ffmpeg binary: every `ffmpeg` in its path
/// becomes `ffprobe`.
pub fn ffprobe_beside(ffmpeg_bin: &str) -> (r: String)
    ensures
        r@ == replace_all(ffmpeg_bin@, "ffmpeg"@, "ffprobe"@),
{
    proof {
        reveal_strlit("ffmpeg");
    }
    let v = chars_of(ffmpeg_bin);
    let pat = chars_of("ffmpeg");
    let pieces = crate::srt::split_chars(&v, 0, &pat);
    assert(v@.skip(0) =~= v@);
    let ghost pv = pieces.deep_view();
    let mut r = String::new();
    let mut i: usize = 0;
    while i < pieces.len()
        invariant
            i <= pieces.len(),
            pv == pieces.deep_view(),
            r@ == join_with(pv.take(i as int), "ffprobe"@),
        decreases pieces.len() - i,
    {
        proof {
            crate::srt::lemma_char_vec_deep_view(pieces@[i as int]);
        }
        assert(pv.take(i + 1).drop_last() =~= pv.take(i as int));
        assert(pv.take(i + 1).last() == pieces@[i as int]@);
        if i > 0 {
            r.append("ffprobe");
        }
        push_chars(&mut r, &pieces[i], 0, pieces[i].len());
        assert(pieces@[i as int]@.subrange(0, pieces@[i as int]@.len() as int) =~= pieces@[i as int]@);
        i = i + 1;
    }
    assert(pv.take(pieces.len() as int) =~= pv);
    r
}

/// The ffprobe to run: the one beside ffmpeg when it exists, else `ffprobe`
/// from the search path.
pub fn ffprobe_path(ffmpeg_bin: &str, beside_exists: bool) -> (r: String)
    ensures
        beside_exists ==> r@ == replace_all(ffmpeg_bin@, "ffmpeg"@, "ffprobe"@),
        !beside_exists ==> r@ == "ffprobe"@,
{
    if beside_exists {
        ffprobe_beside(ffmpeg_bin)
    } else {
        "ffprobe".to_owned()
    }
}

// ── Progress ─────────────────────────────────────────────────────────────────

/// `str::parse::<i64>`: an optional sign and at least one digit, in range.
pub open spec fn parse_i64(s: Seq<char>) -> Option<int> {
    let neg = s.len() > 0 && s[0] == '-';
    let body = if s.len() > 0 && (s[0] == '+' || s[0] == '-') {
        s.drop_first()
    } else {
        s
    };
    let v = if neg {
        -digits_value(body)
    } else {
        digits_value(body)
    };
    if body.len() > 0 && all_digits(body) && i64::MIN <= v <= i64::MAX {
        Some(v)
    } else {
        None
    }
}

/// Reads `v[lo..hi]` as an `i64`.
fn parse_i64_chars(v: &Vec<char>, lo: usize, hi: usize) -> (r: Option<i64>)
    requires
        lo <= hi <= v.len(),
    ensures
        match r {
            Some(x) => parse_i64(v@.subrange(lo as int, hi as int)) == Some(x as int),
            None => parse_i64(v@.subrange(lo as int, hi as int)) is None,
        },
{
    let ghost s = v@.subrange(lo as int, hi as int);
    let neg = lo < hi && v[lo] == '-';
    let start: usize = if lo < hi && (v[lo] == '+' || v[lo] == '-') {
        lo + 1
    } else {
        lo
    };
    let ghost body = if s.len() > 0 && (s[0] == '+' || s[0] == '-') {
        s.drop_first()
    } else {
        s
    };
    assert(body =~= v@.subrange(start as int, hi as int));
    if start == hi {
        return None;
    }
    let limit: i128 = if neg {
        9_223_372_036_854_775_808
    } else {
        9_223_372_036_854_775_807
    };
    match read_digits(v, start, hi, limit) {
        Some(x) => {
            if neg {
                Some((-x) as i64)
            } else {
                Some(x as i64)
            }
        },
        None => None,
    }
}

/// The position in microseconds that an ffmpeg progress line
/// `out_time_ms=N` reports.
pub open spec fn spec_out_time(line: Seq<char>) -> Option<int> {
    let prefix = "out_time_ms="@;
    if line.len() >= prefix.len() && line.take(prefix.len() as int) == prefix {
        parse_i64(trim(strip_prefixes(line, prefix)))
    } else {
        None
    }
}

/// `s.trim_start_matches(p)`: every leading copy of `p` removed.
pub open spec fn strip_prefixes(s: Seq<char>, p: Seq<char>) -> Seq<char>
    decreases s.len(),
{
    if p.len() > 0 && s.len() >= p.len() && s.take(p.len() as int) == p {
        strip_prefixes(s.skip(p.len() as int), p)
    } else {
        s
    }
}

/// The position after every leading copy of `p` in `v`.
fn skip_prefixes(v: &Vec<char>, p: &Vec<char>) -> (k: usize)
    requires
        p.len() > 0,
    ensures
        k <= v.len(),
        strip_prefixes(v@, p@) == v@.skip(k as int),
{
    let m: usize = p.len();
    let mut k: usize = 0;
    assert(v@.skip(0) =~= v@);
    while m <= v.len() - k && crate::text::matches_at(v, p, k)
        invariant
            k <= v.len(),
            m == p.len() > 0,
            strip_prefixes(v@, p@) == strip_prefixes(v@.skip(k as int), p@),
        decreases v.len() - k,
    {
        assert(v@.subrange(k as int, k + m) =~= v@.skip(k as int).take(m as int));
        assert(v@.skip(k as int).skip(m as int) =~= v@.skip(k + m));
        k = k + m;
    }
    if m <= v.len() - k {
        assert(v@.subrange(k as int, k + m) =~= v@.skip(k as int).take(m as int));
    }
    k
}

/// The position reported by an ffmpeg progress line, in microseconds.
pub fn out_time(line: &str) -> (r: Option<i64>)
    ensures
        match r {
            Some(x) => spec_out_time(line@) == Some(x as int),
            None => spec_out_time(line@) is None,
        },
{
    proof {
        reveal_strlit("out_time_ms=");
    }
    let v = chars_of(line);
    let p = chars_of("out_time_ms=");
    let m: usize = p.len();
    if v.len() < m || !crate::text::matches_at(&v, &p, 0) {
        if v.len() >= m {
            assert(v@.subrange(0, m as int) =~= v@.take(m as int));
        }
        return None;
    }
    assert(v@.subrange(0, m as int) =~= v@.take(m as int));
    let k = skip_prefixes(&v, &p);
    let rest = sub_chars(&v, k, v.len());
    assert(rest@ =~= v@.skip(k as int));
    let (lo, hi) = trim_bounds(&rest);
    parse_i64_chars(&rest, lo, hi)
}

/// Extraction progress in millionths of a percent: the position over the
/// duration, at most 100 %, and 0 for an unknown duration.
pub open spec fn spec_progress_percent(position_us: int, duration_us: int) -> int {
    if duration_us > 0 {
        let p = position_us * 100_000_000 / duration_us;
        if p > 100_000_000 {
            100_000_000
        } else {
            p
        }
    } else {
        0
    }
}

/// Extraction progress in millionths of a percent.
pub fn progress_percent(position_us: i64, duration_us: i64) -> (r: i128)
    ensures
        r == spec_progress_percent(position_us as int, duration_us as int),
{
    if duration_us > 0 {
        let num: i128 = (position_us as i128) * 100_000_000;
        let d: i128 = duration_us as i128;
        let p: i128 = if num >= 0 {
            num / d
        } else {
            let q: i128 = (-num) / d;
            let r: i128 = (-num) % d;
            proof {
                let n = num as int;
                let dd = d as int;
                let qq = q as int;
                let rr = r as int;
                assert(qq == (-n) / dd && rr == (-n) % dd);
                vstd::arithmetic::div_mod::lemma_fundamental_div_mod(-n, dd);
                vstd::arithmetic::div_mod::lemma_mod_pos_bound(-n, dd);
                assert(-n == dd * qq + rr && 0 <= rr < dd);
                assert(dd * qq == qq * dd) by (nonlinear_arith);
                if rr == 0 {
                    assert(n == (-qq) * dd) by (nonlinear_arith)
                        requires
                            -n == qq * dd + rr,
                            rr == 0,
                    ;
                    vstd::arithmetic::div_mod::lemma_fundamental_div_mod_converse(n, dd, -qq, 0);
                } else {
                    assert(n == (-qq - 1) * dd + (dd - rr)) by (nonlinear_arith)
                        requires
                            -n == qq * dd + rr,
                    ;
                    vstd::arithmetic::div_mod::lemma_fundamental_div_mod_converse(
                        n,
                        dd,
                        -qq - 1,
                        dd - rr,
                    );
                }
            }
            if r == 0 {
                -q
            } else {
                -q - 1
            }
        };
        if p > 100_000_000 {
            100_000_000
        } else {
            p
        }
    } else {
        0
    }
}

// ── Errors ───────────────────────────────────────────────────────────────────

/// Checks before running ffmpeg: its binary and the input video must exist.
pub fn check_inputs(ffmpeg_bin: &str, ffmpeg_exists: bool, video_path: &str, video_exists: bool) -> (r:
    Result<(), AutoSubError>)
    ensures
        !ffmpeg_exists ==> (r matches Err(AutoSubError::SidecarNotFound(m)) && m@ == "ffmpeg not found at "@
            + ffmpeg_bin@ + ". Please check your installation."@),
        ffmpeg_exists && !video_exists ==> (r matches Err(AutoSubError::AudioExtract(m)) && m@
            == "Input file not found: "@ + video_path@),
        ffmpeg_exists && video_exists ==> r is Ok,
{
    if !ffmpeg_exists {
        let mut m = "ffmpeg not found at ".to_owned();
        m.append(ffmpeg_bin);
        m.append(". Please check your installation.");
        return Err(AutoSubError::SidecarNotFound(m));
    }
    if !video_exists {
        let mut m = "Input file not found: ".to_owned();
        m.append(video_path);
        return Err(AutoSubError::AudioExtract(m));
    }
    Ok(())
}

/// The outcome of ffmpeg exiting with `code`: success only on exit code 0
/// (`status.success()`).
pub fn exit_status(code: Option<i32>) -> (r: Result<(), AutoSubError>)
    ensures
        code == Some(0i32) ==> r is Ok,
        code != Some(0i32) ==> (r matches Err(AutoSubError::AudioExtract(m)) && m@
            == "ffmpeg exited with code: "@ + debug_code(code)),
{
    if code == Some(0i32) {
        return Ok(());
    }
    let mut m = "ffmpeg exited with code: ".to_owned();
    match code {
        Some(c) => {
            m.append("Some(");
            crate::text::push_signed_decimal(&mut m, c as i64);
            m.append(")");
        },
        None => {
            m.append("None");
        },
    }
    Err(AutoSubError::AudioExtract(m))
}

/// `v` limited to the range of `i64`.
pub open spec fn clamp_i64(v: int) -> int {
    if v > i64::MAX {
        i64::MAX as int
    } else if v < i64::MIN {
        i64::MIN as int
    } else {
        v
    }
}

/// The video duration in microseconds read from ffprobe's output (a number
/// of seconds, read as `f32` parsing reads it: see `parse_micros`), limited
/// to the range of `i64`, or the reason it does not read.
pub open spec fn duration_result(stdout: Seq<char>, r: Result<i64, AutoSubError>) -> bool {
    match parse_micros(trim(stdout)) {
        Some(v) => r matches Ok(d) && d == clamp_i64(v),
        None => r matches Err(AutoSubError::AudioExtract(m)) && m@ == "Failed to parse duration: "@
            + if trim(stdout).len() == 0 {
            "cannot parse float from empty string"@
        } else {
            "invalid float literal"@
        },
    }
}

/// Read ffprobe's output as a duration in microseconds.
pub fn parse_duration(stdout: &str) -> (r: Result<i64, AutoSubError>)
    ensures
        duration_result(stdout@, r),
{
    let v = chars_of(stdout);
    let (lo, hi) = trim_bounds(&v);
    let t = sub_chars(&v, lo, hi);
    match parse_micros_chars(&t) {
        Some(x) => {
            if x > i64::MAX as i128 {
                Ok(i64::MAX)
            } else if x < i64::MIN as i128 {
                Ok(i64::MIN)
            } else {
                Ok(x as i64)
            }
        },
        None => {
            let mut m = "Failed to parse duration: ".to_owned();
            if lo == hi {
                m.append("cannot parse float from empty string");
            } else {
                m.append("invalid float literal");
            }
            Err(AutoSubError::AudioExtract(m))
        },
    }
}

} // verus!

//! The whisper.cpp command-line transcriber: its arguments, the reading of
//! its progress and timestamps, and the errors reported when it fails.
//!
//! Running the program and reading its files is the caller's business.
use vstd::prelude::*;
use crate::error::AutoSubError;
use crate::post_process::TIME_LIMIT;
use crate::pipeline::clamp_time;
use crate::sensevoice::join_lines;
use crate::srt::{
    find_from, lemma_char_vec_deep_view, lemma_find_from, parse_micros, parse_micros_chars,
    split_chars, split_seq,
};
use crate::subtitle::{Cue, Segment, cues};
use crate::text::{
    chars_of, has_substring, push_char, push_decimal, push_signed_decimal, str_contains, sub_chars,
    trim, trim_bounds, trimmed,
};

verus! {

broadcast use vstd::seq_lib::group_seq_properties;

// ── Timestamps ───────────────────────────────────────────────────────────────

/// `s` with every `,` replaced by `.`.
pub open spec fn comma_to_dot(s: Seq<char>) -> Seq<char> {
    s.map_values(
        |c: char|
            if c == ',' {
                '.'
            } else {
                c
            },
    )
}

/// A number in millionths, 0 when it does not read.
pub open spec fn micros_or_zero(s: Seq<char>) -> int {
    match parse_micros(s) {
        Some(v) => v,
        None => 0,
    }
}

/// A whisper timestamp `HH:MM:SS.mmm` or `HH:MM:SS,mmm` in microseconds;
/// 0 unless it has exactly three colon-separated parts, an unreadable part
/// counting as 0.
pub open spec fn spec_whisper_timestamp(ts: Seq<char>) -> int {
    let parts = split_seq(comma_to_dot(ts), seq![':']);
    if parts.len() != 3 {
        0
    } else {
        clamp_time(
            micros_or_zero(parts[0]) * 3600 + micros_or_zero(parts[1]) * 60 + micros_or_zero(
                parts[2],
            ),
        )
    }
}

/// Parse a whisper timestamp into microseconds.
pub fn parse_timestamp(ts: &str) -> (t: i64)
    ensures
        t == spec_whisper_timestamp(ts@),
{
    let v = chars_of(ts);
    let mut w: Vec<char> = Vec::new();
    let mut i: usize = 0;
    while i < v.len()
        invariant
            i <= v.len(),
            w@ == comma_to_dot(v@).take(i as int),
        decreases v.len() - i,
    {
        let c: char = if v[i] == ',' {
            '.'
        } else {
            v[i]
        };
        w.push(c);
        i = i + 1;
        assert(w@ =~= comma_to_dot(v@).take(i as int));
    }
    assert(comma_to_dot(v@).take(v.len() as int) =~= comma_to_dot(v@));
    let colon: Vec<char> = vec![':'];
    assert(colon@ =~= seq![':']);
    let parts = split_chars(&w, 0, &colon);
    assert(w@.skip(0) =~= w@);
    if parts.len() != 3 {
        return 0;
    }
    proof {
        lemma_char_vec_deep_view(parts@[0]);
        lemma_char_vec_deep_view(parts@[1]);
        lemma_char_vec_deep_view(parts@[2]);
    }
    let h: i128 = match parse_micros_chars(&parts[0]) {
        Some(x) => x,
        None => 0,
    };
    let m: i128 = match parse_micros_chars(&parts[1]) {
        Some(x) => x,
        None => 0,
    };
    let s: i128 = match parse_micros_chars(&parts[2]) {
        Some(x) => x,
        None => 0,
    };
    let total: i128 = h * 3600 + m * 60 + s;
    if total > TIME_LIMIT as i128 {
        TIME_LIMIT
    } else if total < -(TIME_LIMIT as i128) {
        -TIME_LIMIT
    } else {
        total as i64
    }
}

/// One entry of whisper's JSON output, as decoded by the caller.
#[derive(Debug, Clone)]
pub struct WhisperItem {
    pub from: String,
    pub to: String,
    pub text: String,
}

/// Segments of whisper's JSON output: timestamps read, text trimmed.
pub open spec fn spec_whisper_segments(items: Seq<WhisperItem>) -> Seq<Cue> {
    items.map_values(
        |w: WhisperItem|
            Cue {
                start: spec_whisper_timestamp(w.from@),
                end: spec_whisper_timestamp(w.to@),
                text: trim(w.text@),
            },
    )
}

/// Segments of whisper's JSON output.
pub fn whisper_segments(items: &Vec<WhisperItem>) -> (r: Vec<Segment>)
    ensures
        cues(r@) == spec_whisper_segments(items@),
{
    let mut r: Vec<Segment> = Vec::new();
    let mut i: usize = 0;
    while i < items.len()
        invariant
            i <= items.len(),
            cues(r@) == spec_whisper_segments(items@).take(i as int),
        decreases items.len() - i,
    {
        let w = &items[i];
        let seg = Segment {
            start: parse_timestamp(w.from.as_str()),
            end: parse_timestamp(w.to.as_str()),
            text: trimmed(w.text.as_str()),
        };
        proof {
            crate::post_process::lemma_cues_push(r@, seg);
        }
        r.push(seg);
        i = i + 1;
        assert(cues(r@) =~= spec_whisper_segments(items@).take(i as int));
    }
    assert(spec_whisper_segments(items@).take(items.len() as int) =~= spec_whisper_segments(
        items@,
    ));
    r
}

// ── Arguments ────────────────────────────────────────────────────────────────

/// The language flag value: `auto` for `auto` or an empty language.
pub open spec fn language_arg(language: Seq<char>) -> Seq<char> {
    if language == "auto"@ || language.len() == 0 {
        "auto"@
    } else {
        language
    }
}

/// Arguments of whisper-cli: model, audio, JSON output to `<dir>/output`,
/// beam size 5, threads, maximum segment length 60, temperature 0, progress,
/// the VAD model when there is one, and the language.
pub open spec fn spec_whisper_args(
    model_path: Seq<char>,
    audio_path: Seq<char>,
    output_dir: Seq<char>,
    language: Seq<char>,
    threads: usize,
    vad: Option<Seq<char>>,
) -> Seq<Seq<char>> {
    let base = seq![
        "-m"@,
        model_path,
        "-f"@,
        audio_path,
        "-oj"@,
        "-of"@,
        output_dir + "/output"@,
        "-bs"@,
        "5"@,
        "-t"@,
        crate::text::decimal(threads as nat),
        "--max-len"@,
        "60"@,
        "--temperature"@,
        "0"@,
        "--print-progress"@,
    ];
    let with_vad = match vad {
        Some(p) => base + seq!["--vad"@, p],
        None => base,
    };
    with_vad + seq!["-l"@, language_arg(language)]
}

/// Arguments of whisper-cli; `vad` is the VAD model path when it is ready.
pub fn whisper_args(
    model_path: &str,
    audio_path: &str,
    output_dir: &str,
    language: &str,
    threads: usize,
    vad: Option<String>,
) -> (r: Vec<String>)
    ensures
        r.deep_view() == spec_whisper_args(
            model_path@,
            audio_path@,
            output_dir@,
            language@,
            threads,
            match vad {
                Some(p) => Some(p@),
                None => None,
            },
        ),
{
    let mut output_base = output_dir.to_owned();
    output_base.append("/output");
    let mut t = String::new();
    push_decimal(&mut t, threads as u64);
    assert(t@ =~= crate::text::decimal(threads as nat));
    let mut args: Vec<String> = vec![
        "-m".to_owned(),
        model_path.to_owned(),
        "-f".to_owned(),
        audio_path.to_owned(),
        "-oj".to_owned(),
        "-of".to_owned(),
        output_base,
        "-bs".to_owned(),
        "5".to_owned(),
        "-t".to_owned(),
        t,
        "--max-len".to_owned(),
        "60".to_owned(),
        "--temperature".to_owned(),
        "0".to_owned(),
        "--print-progress".to_owned(),
    ];
    let ghost base = args.deep_view();
    match vad {
        Some(p) => {
            args.push("--vad".to_owned());
            let ghost pv = p@;
            args.push(p);
            assert(args.deep_view() =~= base + seq!["--vad"@, pv]);
        },
        None => {},
    }
    let ghost with_vad = args.deep_view();
    let lang_s = language.to_owned();
    let is_auto = lang_s == "auto".to_owned() || chars_of(language).len() == 0;
    args.push("-l".to_owned());
    if is_auto {
        args.push("auto".to_owned());
    } else {
        args.push(lang_s);
    }
    assert(args.deep_view() =~= with_vad + seq!["-l"@, language_arg(language@)]);
    args
}

/// The JSON file whisper writes for the output directory `output_dir`:
/// the `-of` base `<dir>/output` with `.json` appended.
pub fn output_json_path(output_dir: &str) -> (r: String)
    ensures
        r@ == output_dir@ + "/output.json"@,
{
    let mut r = output_dir.to_owned();
    r.append("/output.json");
    r
}

// ── Progress ─────────────────────────────────────────────────────────────────

/// `s` without its trailing `%` signs.
pub open spec fn strip_percent(s: Seq<char>) -> Seq<char>
    decreases s.len(),
{
    if s.len() > 0 && s.last() == '%' {
        strip_percent(s.drop_last())
    } else {
        s
    }
}

/// The percentage, in millionths of a percent, of a progress line
/// `... progress = NN%`: the text after the first `=`, trimmed, without
/// trailing `%`.
pub open spec fn spec_progress(line: Seq<char>) -> Option<int> {
    if !has_substring(line, "progress ="@) {
        None
    } else {
        let pieces = split_seq(line, seq!['=']);
        if pieces.len() < 2 {
            None
        } else {
            parse_micros(strip_percent(trim(pieces[1])))
        }
    }
}

/// The progress reported by a whisper output line, in millionths of a
/// percent, if the line reports progress.
pub fn whisper_progress(line: &str) -> (r: Option<i128>)
    ensures
        match r {
            Some(x) => spec_progress(line@) == Some(x as int),
            None => spec_progress(line@) is None,
        },
{
    if !str_contains(line, "progress =") {
        return None;
    }
    let v = chars_of(line);
    let eq: Vec<char> = vec!['='];
    assert(eq@ =~= seq!['=']);
    let pieces = split_chars(&v, 0, &eq);
    assert(v@.skip(0) =~= v@);
    if pieces.len() < 2 {
        return None;
    }
    proof {
        lemma_char_vec_deep_view(pieces@[1]);
    }
    let (lo, hi) = trim_bounds(&pieces[1]);
    let mut end: usize = hi;
    while end > lo && pieces[1][end - 1] == '%'
        invariant
            pieces.len() >= 2,
            lo <= end <= hi <= pieces@[1].len(),
            strip_percent(trim(pieces@[1]@)) == strip_percent(pieces@[1]@.subrange(
                lo as int,
                end as int,
            )),
        decreases end,
    {
        assert(pieces@[1]@.subrange(lo as int, end - 1) =~= pieces@[1]@.subrange(
            lo as int,
            end as int,
        ).drop_last());
        end = end - 1;
    }
    let num = sub_chars(&pieces[1], lo, end);
    assert(strip_percent(num@) == num@);
    parse_micros_chars(&num)
}

// ── Failures ─────────────────────────────────────────────────────────────────

/// Lowercase form of a string (`str::to_lowercase`).
pub uninterp spec fn lowercase(s: Seq<char>) -> Seq<char>;

/// `str::to_lowercase`: a function of the text alone; its mapping is not
/// stated.
#[verifier::external_body]
fn to_lowercase(s: &str) -> (r: String)
    ensures
        r@ == lowercase(s@),
{
    s.to_lowercase()
}

/// A standard-error line that explains a failure.
pub open spec fn is_relevant(line: Seq<char>) -> bool {
    let l = lowercase(line);
    has_substring(l, "error"@) || has_substring(l, "failed"@) || has_substring(l, "assert"@)
        || has_substring(l, "cannot"@)
}

/// The first `n` relevant lines, from index `k` on.
pub open spec fn relevant_from(lines: Seq<Seq<char>>, k: int, n: nat) -> Seq<Seq<char>>
    decreases lines.len() - k, n,
{
    if k < 0 || k >= lines.len() || n == 0 {
        seq![]
    } else if is_relevant(lines[k]) {
        seq![lines[k]] + relevant_from(lines, k + 1, (n - 1) as nat)
    } else {
        relevant_from(lines, k + 1, n)
    }
}

/// The last `n` lines.
pub open spec fn last_lines(lines: Seq<Seq<char>>, n: nat) -> Seq<Seq<char>> {
    if lines.len() > n {
        lines.skip(lines.len() - n)
    } else {
        lines
    }
}

/// What is added to the message of a failed run: up to ten explaining lines,
/// else the last five lines, else nothing.
pub open spec fn exit_detail(stderr: Seq<Seq<char>>) -> Seq<char> {
    let relevant = relevant_from(stderr, 0, 10);
    if relevant.len() > 0 {
        "\nwhisper stderr:\n"@ + join_lines(relevant)
    } else if stderr.len() > 0 {
        "\nwhisper stderr (last 5 lines):\n"@ + join_lines(last_lines(stderr, 5))
    } else {
        seq![]
    }
}

/// `lines` joined by `\n`.
fn join_strings(lines: &Vec<String>) -> (s: String)
    ensures
        s@ == join_lines(lines.deep_view()),
{
    let ghost lv = lines.deep_view();
    let mut s = String::new();
    let mut i: usize = 0;
    while i < lines.len()
        invariant
            i <= lines.len(),
            lv == lines.deep_view(),
            s@ == join_lines(lv.take(i as int)),
        decreases lines.len() - i,
    {
        assert(lv.take(i + 1).drop_last() =~= lv.take(i as int));
        assert(lv.take(i + 1).last() == lines@[i as int]@);
        if i > 0 {
            push_char(&mut s, '\n');
        }
        s.append(lines[i].as_str());
        i = i + 1;
    }
    assert(lv.take(lines.len() as int) =~= lv);
    s
}

/// The last `n` lines, copied.
fn last_n(lines: &Vec<String>, n: usize) -> (r: Vec<String>)
    ensures
        r.deep_view() == last_lines(lines.deep_view(), n as nat),
{
    let from: usize = if lines.len() > n {
        lines.len() - n
    } else {
        0
    };
    let mut r: Vec<String> = Vec::new();
    let mut i: usize = from;
    while i < lines.len()
        invariant
            from <= i <= lines.len(),
            from == (if lines.len() > n {
                lines.len() - n
            } else {
                0
            }),
            r.deep_view() == lines.deep_view().subrange(from as int, i as int),
        decreases lines.len() - i,
    {
        let ghost before = r.deep_view();
        let x = lines[i].clone();
        r.push(x);
        assert(r.deep_view() =~= before.push(x@));
        i = i + 1;
        assert(r.deep_view() =~= lines.deep_view().subrange(from as int, i as int));
    }
    assert(lines.deep_view().subrange(from as int, lines.len() as int) =~= last_lines(
        lines.deep_view(),
        n as nat,
    ));
    r
}

/// The first ten relevant lines.
fn relevant_lines(lines: &Vec<String>) -> (r: Vec<String>)
    ensures
        r.deep_view() == relevant_from(lines.deep_view(), 0, 10),
{
    let ghost lv = lines.deep_view();
    let mut r: Vec<String> = Vec::new();
    let mut i: usize = 0;
    let mut left: usize = 10;
    while i < lines.len() && left > 0
        invariant
            i <= lines.len(),
            left <= 10,
            lv == lines.deep_view(),
            r.deep_view() + relevant_from(lv, i as int, left as nat) == relevant_from(lv, 0, 10),
        decreases lines.len() - i,
    {
        let low = to_lowercase(lines[i].as_str());
        let rel = str_contains(low.as_str(), "error") || str_contains(low.as_str(), "failed")
            || str_contains(low.as_str(), "assert") || str_contains(low.as_str(), "cannot");
        assert(lv[i as int] == lines@[i as int]@);
        if rel {
            let ghost before = r.deep_view();
            let x = lines[i].clone();
            r.push(x);
            assert(r.deep_view() =~= before.push(x@));
            assert(before + relevant_from(lv, i as int, left as nat) =~= r.deep_view()
                + relevant_from(lv, i + 1, (left - 1) as nat));
            left = left - 1;
        }
        i = i + 1;
    }
    assert(relevant_from(lv, i as int, left as nat) =~= Seq::<Seq<char>>::empty());
    assert(r.deep_view() =~= relevant_from(lv, 0, 10));
    r
}

/// `{:?}` of an exit code.
fn push_debug_code(s: &mut String, code: Option<i32>)
    ensures
        final(s)@ == old(s)@ + crate::sensevoice::debug_code(code),
{
    match code {
        Some(c) => {
            s.append("Some(");
            push_signed_decimal(s, c as i64);
            s.append(")");
        },
        None => {
            s.append("None");
        },
    }
}

/// The error of a whisper run that exited with `code` (not 0), given the
/// standard-error lines it printed.
pub fn exit_error(code: Option<i32>, stderr: &Vec<String>) -> (e: AutoSubError)
    ensures
        e matches AutoSubError::WhisperDecode(m) && m@ == "whisper exited with code: "@
            + crate::sensevoice::debug_code(code) + exit_detail(stderr.deep_view()),
{
    let mut m = "whisper exited with code: ".to_owned();
    push_debug_code(&mut m, code);
    let relevant = relevant_lines(stderr);
    if relevant.len() > 0 {
        m.append("\nwhisper stderr:\n");
        let j = join_strings(&relevant);
        m.append(j.as_str());
    } else if stderr.len() > 0 {
        m.append("\nwhisper stderr (last 5 lines):\n");
        let tail = last_n(stderr, 5);
        let j = join_strings(&tail);
        m.append(j.as_str());
    }
    AutoSubError::WhisperDecode(m)
}

/// The outcome of a whisper run that exited with `code`: success only on
/// exit code 0, else the error of `exit_error`.
pub fn whisper_exit(code: Option<i32>, stderr: &Vec<String>) -> (r: Result<(), AutoSubError>)
    ensures
        r is Ok <==> code == Some(0i32),
        code != Some(0i32) ==> (r matches Err(AutoSubError::WhisperDecode(m)) && m@
            == "whisper exited with code: "@ + crate::sensevoice::debug_code(code) + exit_detail(
            stderr.deep_view(),
        )),
{
    if code == Some(0i32) {
        Ok(())
    } else {
        Err(exit_error(code, stderr))
    }
}

/// The error when whisper's event stream ends without a successful exit.
pub fn disconnected_error(stderr: &Vec<String>) -> (e: AutoSubError)
    ensures
        e matches AutoSubError::WhisperDecode(m) && m@
            == "whisper process disconnected prematurely. Possible OOM or crash."@ + if stderr.len()
            > 0 {
            "\nwhisper stderr (last 10 lines):\n"@ + join_lines(last_lines(stderr.deep_view(), 10))
        } else {
            "No stderr available."@
        },
{
    let mut m = "whisper process disconnected prematurely. Possible OOM or crash.".to_owned();
    if stderr.len() > 0 {
        m.append("\nwhisper stderr (last 10 lines):\n");
        let tail = last_n(stderr, 10);
        let j = join_strings(&tail);
        m.append(j.as_str());
    } else {
        m.append("No stderr available.");
    }
    AutoSubError::WhisperDecode(m)
}

/// The file names of a directory joined by `, `.
pub open spec fn join_names(names: Seq<Seq<char>>) -> Seq<char>
    decreases names.len(),
{
    if names.len() == 0 {
        seq![]
    } else if names.len() == 1 {
        names[0]
    } else {
        join_names(names.drop_last()) + ", "@ + names.last()
    }
}

/// The error when whisper wrote no JSON file at `json_path`; `files` are the
/// names in the output directory, `None` when it could not be read.
pub fn missing_output_error(json_path: &str, files: &Option<Vec<String>>, stderr: &Vec<String>) -> (e:
    AutoSubError)
    ensures
        e matches AutoSubError::ParseFailed(m) && m@ == "whisper did not produce output.json at "@
            + json_path@ + ".\nFiles in output dir: ["@ + match files {
            Some(f) => join_names(f.deep_view()),
            None => "Could not read directory"@,
        } + "]\nPossible causes: invalid audio format, corrupted audio, or whisper crash."@ + if stderr.len()
            > 0 {
            "\nwhisper stderr:\n"@ + join_lines(last_lines(stderr.deep_view(), 8))
        } else {
            seq![]
        },
{
    let mut m = "whisper did not produce output.json at ".to_owned();
    m.append(json_path);
    m.append(".\nFiles in output dir: [");
    match files {
        Some(f) => {
            let ghost fv = f.deep_view();
            let ghost before = m@;
            let mut i: usize = 0;
            while i < f.len()
                invariant
                    i <= f.len(),
                    fv == f.deep_view(),
                    m@ == before + join_names(fv.take(i as int)),
                decreases f.len() - i,
            {
                assert(fv.take(i + 1).drop_last() =~= fv.take(i as int));
                assert(fv.take(i + 1).last() == f@[i as int]@);
                if i > 0 {
                    m.append(", ");
                }
                m.append(f[i].as_str());
                i = i + 1;
            }
            assert(fv.take(f.len() as int) =~= fv);
        },
        None => {
            m.append("Could not read directory");
        },
    }
    m.append("]\nPossible causes: invalid audio format, corrupted audio, or whisper crash.");
    if stderr.len() > 0 {
        m.append("\nwhisper stderr:\n");
        let tail = last_n(stderr, 8);
        let j = join_strings(&tail);
        m.append(j.as_str());
    }
    AutoSubError::ParseFailed(m)
}

/// whisper's JSON file is complete: trimmed, it starts with `{` and ends
/// with `}`.
pub open spec fn json_complete(s: Seq<char>) -> bool {
    let t = trim(s);
    t.len() > 0 && t[0] == '{' && t.last() == '}'
}

/// Check that whisper's JSON output is complete before decoding it.
#[verifier::spinoff_prover]
pub fn check_json_complete(json: &str) -> (r: Result<(), AutoSubError>)
    ensures
        json_complete(json@) ==> r is Ok,
        !json_complete(json@) ==> (r matches Err(AutoSubError::ParseFailed(m)) && m@
            == "Whisper output JSON is incomplete or corrupt (missing braces). The process may have been interrupted."@),
{
    let v = chars_of(json);
    let (lo, hi) = trim_bounds(&v);
    if lo < hi && v[lo] == '{' && v[hi - 1] == '}' {
        assert(trim(json@).last() == v@[hi - 1]);
        Ok(())
    } else {
        Err(
            AutoSubError::ParseFailed(
                "Whisper output JSON is incomplete or corrupt (missing braces). The process may have been interrupted.".to_owned(),
            ),
        )
    }
}

/// What is known of the extracted audio file.
#[derive(Debug, Clone)]
pub enum AudioFile {
    Missing,
    /// Its metadata could not be read, with the reason.
    Unreadable(String),
    /// Its size in bytes.
    Size(u64),
}

/// Check that the extracted audio file exists and holds more than a WAV
/// header (44 bytes).
pub fn check_audio(audio_path: &str, audio: &AudioFile) -> (r: Result<(), AutoSubError>)
    ensures
        match *audio {
            AudioFile::Missing => r matches Err(AutoSubError::WhisperDecode(m)) && m@
                == "Audio file not found at "@ + audio_path@
                + ". FFmpeg extraction may have failed."@,
            AudioFile::Unreadable(why) => r matches Err(AutoSubError::WhisperDecode(m)) && m@
                == "Failed to read audio file metadata: "@ + why@,
            AudioFile::Size(n) => if n == 0 {
                r matches Err(AutoSubError::WhisperDecode(m)) && m@
                    == "Audio file is empty. Source video may have no audio or FFmpeg extraction failed."@
            } else if n < 44 {
                r matches Err(AutoSubError::WhisperDecode(m)) && m@ == "Audio file is too small ("@
                    + crate::text::decimal(n as nat) + " bytes) - likely invalid or corrupted."@
            } else {
                r is Ok
            },
        },
{
    match audio {
        AudioFile::Missing => {
            let mut m = "Audio file not found at ".to_owned();
            m.append(audio_path);
            m.append(". FFmpeg extraction may have failed.");
            Err(AutoSubError::WhisperDecode(m))
        },
        AudioFile::Unreadable(why) => {
            let mut m = "Failed to read audio file metadata: ".to_owned();
            m.append(why.as_str());
            Err(AutoSubError::WhisperDecode(m))
        },
        AudioFile::Size(n) => {
            if *n == 0 {
                Err(
                    AutoSubError::WhisperDecode(
                        "Audio file is empty. Source video may have no audio or FFmpeg extraction failed.".to_owned(),
                    ),
                )
            } else if *n < 44 {
                let mut m = "Audio file is too small (".to_owned();
                push_decimal(&mut m, *n);
                m.append(" bytes) - likely invalid or corrupted.");
                Err(AutoSubError::WhisperDecode(m))
            } else {
                Ok(())
            }
        },
    }
}

} // verus!

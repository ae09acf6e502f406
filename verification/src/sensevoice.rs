//! Transcription through the SenseVoice Python script: the arguments passed
//! to it, the checks on its inputs, and the parsing of its JSON-lines output.
//!
//! Running the script is the caller's business; it hands over each output
//! line together with what a JSON decoder made of it (a [`JsonLine`]).
use vstd::prelude::*;
use crate::error::AutoSubError;
use crate::model_manager::{ModelConfig, ModelKind};
use crate::subtitle::{Cue, Segment, cues};
use crate::text::{
    chars_of, decimal, has_substring, push_char, push_decimal, str_contains, trim, trim_bounds,
    trimmed,
};

verus! {

// ── Script output ────────────────────────────────────────────────────────────

/// What a JSON decoder reads from one output line of the script.
#[derive(Debug, Clone)]
pub enum JsonLine {
    /// `{"start": .., "end": .., "text": ..}`, times in microseconds.
    Segment { start: i64, end: i64, text: String },
    /// `{"error": ..}`.
    Error { error: String },
    /// Anything else.
    Other,
}

/// One line that the script printed, and its JSON reading.
#[derive(Debug, Clone)]
pub struct OutputLine {
    pub text: String,
    pub json: JsonLine,
}

/// A line is looked at only when, trimmed, it is non-empty and starts with `{`.
pub open spec fn is_json_candidate(line: Seq<char>) -> bool {
    let t = trim(line);
    t.len() > 0 && t[0] == '{'
}

/// One line of the output added to the segments collected so far; an error
/// line stops the collection with its message.
pub open spec fn collect_step(c: Seq<Cue>, line: OutputLine) -> Result<Seq<Cue>, Seq<char>> {
    if !is_json_candidate(line.text@) {
        Ok(c)
    } else {
        match line.json {
            JsonLine::Segment { start, end, text } => {
                if trim(text@).len() > 0 && end > start && start >= 0 {
                    Ok(c.push(Cue { start: start as int, end: end as int, text: trim(text@) }))
                } else {
                    Ok(c)
                }
            },
            JsonLine::Error { error } => Err(error@),
            JsonLine::Other => Ok(c),
        }
    }
}

/// The segments of the output lines, or the message of the first error line.
pub open spec fn collect_lines(lines: Seq<OutputLine>) -> Result<Seq<Cue>, Seq<char>>
    decreases lines.len(),
{
    if lines.len() == 0 {
        Ok(seq![])
    } else {
        match collect_lines(lines.drop_last()) {
            Err(e) => Err(e),
            Ok(c) => collect_step(c, lines.last()),
        }
    }
}

/// A standard-error line reports a missing Python module.
pub open spec fn is_pip_error(line: Seq<char>) -> bool {
    has_substring(line, "No module named"@) || has_substring(line, "ImportError"@)
}

pub open spec fn pip_error(stderr: Seq<String>) -> bool {
    exists|i: int| 0 <= i < stderr.len() && is_pip_error(#[trigger] stderr[i]@)
}

/// Message given when the `sherpa_onnx` Python package is missing.
pub open spec fn pip_message() -> Seq<char> {
    "sherpa_onnx Python package chưa được cài.\nChạy: pip3 install sherpa-onnx numpy"@
}

/// What `parse_json_output` returns for the given output.
pub open spec fn parse_output_result(
    lines: Seq<OutputLine>,
    stderr: Seq<String>,
    r: Result<Vec<Segment>, AutoSubError>,
) -> bool {
    match collect_lines(lines) {
        Err(e) => r matches Err(AutoSubError::ParseFailed(m)) && m@ == "Script error: "@ + e,
        Ok(c) => if pip_error(stderr) && c.len() == 0 {
            r matches Err(AutoSubError::WhisperDecode(m)) && m@ == pip_message()
        } else {
            r matches Ok(v) && cues(v@) == c
        },
    }
}

fn is_json_line(line: &str) -> (b: bool)
    ensures
        b == is_json_candidate(line@),
{
    let v = chars_of(line);
    let (lo, hi) = trim_bounds(&v);
    lo < hi && v[lo] == '{'
}

/// Parse the JSON lines that the script wrote on standard output; each
/// line is `{"start": X, "end": Y, "text": "..."}`.
///
/// Segments with empty text, a negative start or an end not after the start
/// are dropped; an `{"error": ..}` line is a script error. When nothing was
/// parsed and standard error reports a missing Python module, that is the
/// error.
pub fn parse_json_output(lines: &Vec<OutputLine>, stderr: &Vec<String>) -> (r: Result<
    Vec<Segment>,
    AutoSubError,
>)
    ensures
        parse_output_result(lines@, stderr@, r),
{
    let mut segments: Vec<Segment> = Vec::new();
    let n: usize = lines.len();
    let mut i: usize = 0;
    assert(lines@.take(0).len() == 0);
    assert(cues(segments@) =~= Seq::<Cue>::empty());
    while i < n
        invariant
            i <= n == lines.len(),
            collect_lines(lines@.take(i as int)) == Ok::<Seq<Cue>, Seq<char>>(cues(segments@)),
        decreases n - i,
    {
        assert(lines@.take(i + 1).drop_last() =~= lines@.take(i as int));
        assert(lines@.take(i + 1).last() == lines@[i as int]);
        let line = &lines[i];
        if is_json_line(line.text.as_str()) {
            match &line.json {
                JsonLine::Segment { start, end, text } => {
                    let t = trimmed(text.as_str());
                    let tn: usize = chars_of(t.as_str()).len();
                    if tn > 0 && *end > *start && *start >= 0 {
                        let seg = Segment { start: *start, end: *end, text: t };
                        proof {
                            crate::post_process::lemma_cues_push(segments@, seg);
                        }
                        segments.push(seg);
                    }
                },
                JsonLine::Error { error } => {
                    let mut m = "Script error: ".to_owned();
                    m.append(error.as_str());
                    proof {
                        lemma_collect_error_stays(lines@, i as int + 1);
                    }
                    return Err(AutoSubError::ParseFailed(m));
                },
                JsonLine::Other => {},
            }
        }
        i = i + 1;
    }
    assert(lines@.take(n as int) =~= lines@);
    let mut pip = false;
    let mut j: usize = 0;
    while j < stderr.len()
        invariant
            j <= stderr.len(),
            pip == exists|k: int| 0 <= k < j && is_pip_error(#[trigger] stderr@[k]@),
        decreases stderr.len() - j,
    {
        let hit = str_contains(stderr[j].as_str(), "No module named") || str_contains(
            stderr[j].as_str(),
            "ImportError",
        );
        if hit {
            assert(is_pip_error(stderr@[j as int]@));
        }
        pip = pip || hit;
        j = j + 1;
    }
    if pip && segments.len() == 0 {
        return Err(
            AutoSubError::WhisperDecode(
                "sherpa_onnx Python package chưa được cài.\nChạy: pip3 install sherpa-onnx numpy".to_owned(),
            ),
        );
    }
    Ok(segments)
}

/// The segment a line yields: a JSON line read as a segment with non-empty
/// trimmed text, a start of at least 0 and an end after the start gives that
/// segment with its text trimmed; any other line gives none.
pub open spec fn line_segment(l: OutputLine) -> Option<Cue> {
    let t = trim(l.text@);
    if t.len() > 0 && t[0] == '{' {
        match l.json {
            JsonLine::Segment { start, end, text } => if trim(text@).len() > 0 && start >= 0 && end
                > start {
                Some(Cue { start: start as int, end: end as int, text: trim(text@) })
            } else {
                None
            },
            _ => None,
        }
    } else {
        None
    }
}

/// A line that the script wrote as `{"error": ..}`.
pub open spec fn is_error_line(l: OutputLine) -> bool {
    let t = trim(l.text@);
    t.len() > 0 && t[0] == '{' && l.json is Error
}

proof fn lemma_collect_filter_map(lines: Seq<OutputLine>)
    requires
        forall|i: int| 0 <= i < lines.len() ==> !is_error_line(#[trigger] lines[i]),
    ensures
        collect_lines(lines) == Ok::<Seq<Cue>, Seq<char>>(
            lines.filter_map(|l: OutputLine| line_segment(l)),
        ),
    decreases lines.len(),
{
    if lines.len() > 0 {
        let d = lines.drop_last();
        assert forall|i: int| 0 <= i < d.len() implies !is_error_line(#[trigger] d[i]) by {
            assert(d[i] == lines[i]);
        }
        lemma_collect_filter_map(d);
        let l = lines.last();
        assert(l == lines[lines.len() - 1]);
        let c = d.filter_map(|l: OutputLine| line_segment(l));
        match line_segment(l) {
            Some(x) => {
                assert(collect_step(c, l) == Ok::<Seq<Cue>, Seq<char>>(c.push(x)));
                assert(c.push(x) =~= c + seq![x]);
            },
            None => {
                assert(collect_step(c, l) == Ok::<Seq<Cue>, Seq<char>>(c));
            },
        }
    }
}

/// Without an error line, parsing yields exactly one segment for every
/// valid segment line, in order, and nothing else: the segments are the
/// valid lines' segments. It fails only when there are none and standard
/// error reports a missing Python module.
pub proof fn lemma_parse_keeps_every_segment(
    lines: Seq<OutputLine>,
    stderr: Seq<String>,
    r: Result<Vec<Segment>, AutoSubError>,
)
    requires
        parse_output_result(lines, stderr, r),
        forall|i: int| 0 <= i < lines.len() ==> !is_error_line(#[trigger] lines[i]),
    ensures
        r matches Ok(v) ==> cues(v@) == lines.filter_map(|l: OutputLine| line_segment(l)),
        r is Err ==> lines.filter_map(|l: OutputLine| line_segment(l)).len() == 0 && pip_error(
            stderr,
        ),
{
    lemma_collect_filter_map(lines);
}

/// The model type passed to the script names the kind of the model:
/// `sense-voice`, `paraformer` or `fire-red-v2`, so configs of different
/// kinds get different model types.
pub proof fn lemma_model_type_by_kind(
    config: ModelConfig,
    vad_path: Seq<char>,
    audio_path: Seq<char>,
    threads: usize,
    r: Result<Vec<String>, AutoSubError>,
    other: ModelConfig,
    r2: Result<Vec<String>, AutoSubError>,
)
    requires
        python_args_result(config, vad_path, audio_path, threads, true, r),
        python_args_result(other, vad_path, audio_path, threads, true, r2),
    ensures
        r matches Ok(v) ==> v.deep_view().len() == 9 && v.deep_view()[2] == "--model-type"@
            && v.deep_view()[3] == match config.kind {
            ModelKind::SenseVoice { .. } => "sense-voice"@,
            ModelKind::Paraformer { .. } => "paraformer"@,
            ModelKind::FireRedAsr { .. } => "fire-red-v2"@,
        },
        (r matches Ok(v) && r2 matches Ok(w) && v.deep_view()[3] == w.deep_view()[3]) ==> (
        (config.kind is SenseVoice && other.kind is SenseVoice) || (config.kind is Paraformer
            && other.kind is Paraformer) || (config.kind is FireRedAsr && other.kind is FireRedAsr)),
{
    reveal_strlit("sense-voice");
    reveal_strlit("paraformer");
    reveal_strlit("fire-red-v2");
    assert("sense-voice"@[0] == 's' && "paraformer"@[0] == 'p' && "fire-red-v2"@[0] == 'f');
}

/// Once the collection has stopped on an error, later lines do not change it.
pub proof fn lemma_collect_error_stays(lines: Seq<OutputLine>, k: int)
    requires
        0 <= k <= lines.len(),
        collect_lines(lines.take(k)) is Err,
    ensures
        collect_lines(lines) == collect_lines(lines.take(k)),
    decreases lines.len() - k,
{
    if k < lines.len() {
        assert(lines.take(k + 1).drop_last() =~= lines.take(k));
        lemma_collect_error_stays(lines, k + 1);
    } else {
        assert(lines.take(k) =~= lines);
    }
}

/// Every segment parsed from the script output has a non-empty, trimmed
/// text, a non-negative start and an end after its start.
pub proof fn lemma_collected_segments_valid(lines: Seq<OutputLine>)
    ensures
        collect_lines(lines) matches Ok(c) ==> forall|i: int|
            0 <= i < c.len() ==> {
                &&& (#[trigger] c[i]).text.len() > 0
                &&& c[i].text == trim(c[i].text)
                &&& 0 <= c[i].start < c[i].end
            },
    decreases lines.len(),
{
    if lines.len() > 0 {
        lemma_collected_segments_valid(lines.drop_last());
        if let Ok(c) = collect_lines(lines.drop_last()) {
            let line = lines.last();
            if is_json_candidate(line.text@) {
                if let JsonLine::Segment { start, end, text } = line.json {
                    crate::text::lemma_trim_idempotent(text@);
                }
            }
        }
    }
}


// ── Input checks ─────────────────────────────────────────────────────────────

/// The message when a file or directory does not exist.
pub open spec fn missing_message(label: Seq<char>, path: Seq<char>) -> Seq<char> {
    label + " không tồn tại: "@ + path
}

/// The message when a file is smaller than required.
pub open spec fn too_small_message(label: Seq<char>, size: u64, path: Seq<char>) -> Seq<char> {
    label + " quá nhỏ ("@ + decimal(size as nat) + " bytes): "@ + path
}

/// The message when a model directory does not exist.
pub open spec fn missing_dir_message(label: Seq<char>, path: Seq<char>) -> Seq<char> {
    label + " không tồn tại: "@ + path + "\nChạy: ./build-scripts/setup-models.sh"@
}

/// Check a file of the given size (`None` when it cannot be read) against a
/// minimum size.
pub fn validate_file(path: &str, label: &str, min_bytes: u64, size: Option<u64>) -> (r: Result<
    (),
    AutoSubError,
>)
    ensures
        match size {
            None => r matches Err(AutoSubError::WhisperDecode(m)) && m@ == missing_message(
                label@,
                path@,
            ),
            Some(n) => if n < min_bytes {
                r matches Err(AutoSubError::WhisperDecode(m)) && m@ == too_small_message(
                    label@,
                    n,
                    path@,
                )
            } else {
                r is Ok
            },
        },
{
    match size {
        None => {
            let mut m = label.to_owned();
            m.append(" không tồn tại: ");
            m.append(path);
            Err(AutoSubError::WhisperDecode(m))
        },
        Some(n) => {
            if n < min_bytes {
                let mut m = label.to_owned();
                m.append(" quá nhỏ (");
                push_decimal(&mut m, n);
                m.append(" bytes): ");
                m.append(path);
                Err(AutoSubError::WhisperDecode(m))
            } else {
                Ok(())
            }
        },
    }
}

/// Check that a directory exists (`is_dir` tells whether `path` exists and
/// is a directory).
pub fn validate_dir(path: &str, label: &str, is_dir: bool) -> (r: Result<(), AutoSubError>)
    ensures
        if is_dir {
            r is Ok
        } else {
            r matches Err(AutoSubError::WhisperDecode(m)) && m@ == missing_dir_message(
                label@,
                path@,
            )
        },
{
    if !is_dir {
        let mut m = label.to_owned();
        m.append(" không tồn tại: ");
        m.append(path);
        m.append("\nChạy: ./build-scripts/setup-models.sh");
        return Err(AutoSubError::WhisperDecode(m));
    }
    Ok(())
}

// ── Script arguments ─────────────────────────────────────────────────────────

/// Parent directory of a path (`Path::parent`), `None` for a root or an
/// empty path.
pub uninterp spec fn path_parent(path: Seq<char>) -> Option<Seq<char>>;

/// `Path::parent` of `path`, as a string. The result depends on the path
/// alone; its shape is not stated.
#[verifier::external_body]
fn parent_of(path: &str) -> (r: Option<String>)
    ensures
        match r {
            Some(p) => path_parent(path@) == Some(p@),
            None => path_parent(path@) is None,
        },
{
    std::path::Path::new(path).parent().map(|p| p.to_string_lossy().to_string())
}

/// The file whose directory is the model directory.
pub open spec fn main_model_file(kind: ModelKind) -> Seq<char> {
    match kind {
        ModelKind::SenseVoice { model, .. } => model@,
        ModelKind::Paraformer { model, .. } => model@,
        ModelKind::FireRedAsr { encoder, .. } => encoder@,
    }
}

pub open spec fn model_dir_label(kind: ModelKind) -> Seq<char> {
    match kind {
        ModelKind::SenseVoice { .. } => "SenseVoice model dir"@,
        ModelKind::Paraformer { .. } => "Paraformer model dir"@,
        ModelKind::FireRedAsr { .. } => "FireRedASR model dir"@,
    }
}

/// The `--model-type` argument of the script.
pub open spec fn model_type_arg(kind: ModelKind) -> Seq<char> {
    match kind {
        ModelKind::SenseVoice { .. } => "sense-voice"@,
        ModelKind::Paraformer { .. } => "paraformer"@,
        ModelKind::FireRedAsr { .. } => "fire-red-v2"@,
    }
}

/// `generate-subtitles.py --model-dir D --model-type T --vad V --threads N audio`.
pub open spec fn python_args(
    dir: Seq<char>,
    kind: ModelKind,
    vad_path: Seq<char>,
    threads: usize,
    audio_path: Seq<char>,
) -> Seq<Seq<char>> {
    seq![
        "--model-dir"@,
        dir,
        "--model-type"@,
        model_type_arg(kind),
        "--vad"@,
        vad_path,
        "--threads"@,
        decimal(threads as nat),
        audio_path,
    ]
}

/// What `build_python_args` returns, given whether the model directory exists.
pub open spec fn python_args_result(
    config: ModelConfig,
    vad_path: Seq<char>,
    audio_path: Seq<char>,
    threads: usize,
    dir_exists: bool,
    r: Result<Vec<String>, AutoSubError>,
) -> bool {
    match path_parent(main_model_file(config.kind)) {
        None => r matches Err(AutoSubError::WhisperDecode(m)) && m@ == "Invalid model path"@,
        Some(dir) => if !dir_exists {
            r matches Err(AutoSubError::WhisperDecode(m)) && m@ == missing_dir_message(
                model_dir_label(config.kind),
                dir,
            )
        } else {
            r matches Ok(v) && v.deep_view() == python_args(
                dir,
                config.kind,
                vad_path,
                threads,
                audio_path,
            )
        },
    }
}

/// Directory of the model files of `config`: the one that must exist before
/// the script runs.
pub fn model_dir(config: &ModelConfig) -> (r: Option<String>)
    ensures
        match r {
            Some(p) => path_parent(main_model_file(config.kind)) == Some(p@),
            None => path_parent(main_model_file(config.kind)) is None,
        },
{
    match &config.kind {
        ModelKind::SenseVoice { model, .. } => parent_of(model.as_str()),
        ModelKind::Paraformer { model, .. } => parent_of(model.as_str()),
        ModelKind::FireRedAsr { encoder, .. } => parent_of(encoder.as_str()),
    }
}

/// Build the arguments of `generate-subtitles.py` for `config`;
/// `dir_exists` tells whether the model directory exists as a directory.
pub fn build_python_args(
    config: &ModelConfig,
    vad_path: &str,
    audio_path: &str,
    threads: usize,
    dir_exists: bool,
) -> (r: Result<Vec<String>, AutoSubError>)
    ensures
        python_args_result(*config, vad_path@, audio_path@, threads, dir_exists, r),
{
    let dir = match model_dir(config) {
        Some(d) => d,
        None => {
            return Err(AutoSubError::WhisperDecode("Invalid model path".to_owned()));
        },
    };
    let (label, model_type) = match &config.kind {
        ModelKind::SenseVoice { .. } => ("SenseVoice model dir", "sense-voice"),
        ModelKind::Paraformer { .. } => ("Paraformer model dir", "paraformer"),
        ModelKind::FireRedAsr { .. } => ("FireRedASR model dir", "fire-red-v2"),
    };
    match validate_dir(dir.as_str(), label, dir_exists) {
        Err(e) => {
            return Err(e);
        },
        Ok(()) => {},
    }
    let mut args: Vec<String> = Vec::new();
    args.push("--model-dir".to_owned());
    args.push(dir);
    args.push("--model-type".to_owned());
    args.push(model_type.to_owned());
    args.push("--vad".to_owned());
    args.push(vad_path.to_owned());
    args.push("--threads".to_owned());
    let mut t = String::new();
    push_decimal(&mut t, threads as u64);
    assert(t@ =~= decimal(threads as nat));
    args.push(t);
    args.push(audio_path.to_owned());
    assert(args.deep_view() =~= python_args(
        path_parent(main_model_file(config.kind)).unwrap(),
        config.kind,
        vad_path@,
        threads,
        audio_path@,
    ));
    Ok(args)
}


// ── Collecting the script's output ───────────────────────────────────────────

/// Lines joined with `\n` between them.
pub open spec fn join_lines(s: Seq<Seq<char>>) -> Seq<char>
    decreases s.len(),
{
    if s.len() == 0 {
        seq![]
    } else if s.len() == 1 {
        s[0]
    } else {
        join_lines(s.drop_last()) + seq!['\n'] + s.last()
    }
}

/// `{:?}` of an exit code.
pub open spec fn debug_code(code: Option<i32>) -> Seq<char> {
    match code {
        Some(c) => "Some("@ + crate::text::signed_decimal(c as int) + ")"@,
        None => "None"@,
    }
}

/// The first standard-error line starting with `{` that reads as a script
/// error, from index `k` on.
pub open spec fn first_script_error(lines: Seq<(Seq<char>, Option<Seq<char>>)>, k: int) -> Option<
    Seq<char>,
>
    decreases lines.len() - k,
{
    if k < 0 || k >= lines.len() {
        None
    } else if lines[k].0.len() > 0 && lines[k].0[0] == '{' && lines[k].1 is Some {
        lines[k].1
    } else {
        first_script_error(lines, k + 1)
    }
}

/// The explanation of a failed run: the script's own error message, or else
/// its last five lines of standard error.
pub open spec fn failure_detail(lines: Seq<(Seq<char>, Option<Seq<char>>)>) -> Seq<char> {
    match first_script_error(lines, 0) {
        Some(e) => e,
        None => {
            let from = if lines.len() > 5 {
                lines.len() - 5
            } else {
                0
            };
            join_lines(lines.subrange(from, lines.len() as int).map_values(|l: (Seq<char>, Option<Seq<char>>)| l.0))
        },
    }
}

/// Progress of a running transcription, in millionths of a percent, after
/// `count` JSON lines: 85 % spread over the first 150 lines, then 85 %.
pub open spec fn spec_transcribe_progress(count: nat) -> int {
    let p: int = (count * 85_000_000 / 150) as int;
    if p > 85_000_000 {
        85_000_000
    } else {
        p
    }
}

/// Gathers what the script prints while it runs: non-empty trimmed lines of
/// standard output and standard error, and the number of JSON lines seen.
pub struct TranscribeCollector {
    stdout_lines: Vec<String>,
    /// Each trimmed standard-error line with its reading as `{"error": ..}`.
    stderr_lines: Vec<(String, Option<String>)>,
    segment_count: usize,
}

impl TranscribeCollector {
    pub closed spec fn stdout_view(&self) -> Seq<Seq<char>> {
        self.stdout_lines.deep_view()
    }

    pub closed spec fn stderr_view(&self) -> Seq<(Seq<char>, Option<Seq<char>>)> {
        self.stderr_lines@.map_values(
            |l: (String, Option<String>)|
                (
                    l.0@,
                    match l.1 {
                        Some(e) => Some(e@),
                        None => None,
                    },
                ),
        )
    }

    pub closed spec fn count(&self) -> nat {
        self.segment_count as nat
    }

    pub closed spec fn wf(&self) -> bool {
        self.segment_count <= self.stdout_lines.len()
    }

    pub fn new() -> (c: Self)
        ensures
            c.wf(),
            c.stdout_view() == Seq::<Seq<char>>::empty(),
            c.stderr_view() == Seq::<(Seq<char>, Option<Seq<char>>)>::empty(),
            c.count() == 0,
    {
        let c = TranscribeCollector {
            stdout_lines: Vec::new(),
            stderr_lines: Vec::new(),
            segment_count: 0,
        };
        assert(c.stdout_view() =~= Seq::<Seq<char>>::empty());
        assert(c.stderr_view() =~= Seq::<(Seq<char>, Option<Seq<char>>)>::empty());
        c
    }

    /// Number of JSON lines seen on standard output so far.
    pub fn segment_count(&self) -> (n: usize)
        ensures
            n == self.count(),
    {
        self.segment_count
    }

    /// Estimated progress of the transcription while the script runs, in
    /// millionths of a percent (see `spec_transcribe_progress`).
    pub fn progress(&self) -> (p: u64)
        ensures
            p == spec_transcribe_progress(self.count()),
    {
        if self.segment_count >= 150 {
            85_000_000
        } else {
            (self.segment_count as u64) * 85_000_000 / 150
        }
    }

    /// The collected standard-output lines.
    pub fn stdout_lines(&self) -> (r: &Vec<String>)
        ensures
            r.deep_view() == self.stdout_view(),
    {
        &self.stdout_lines
    }

    /// The collected standard-error lines.
    pub fn stderr_lines(&self) -> (r: Vec<String>)
        ensures
            r.deep_view() == self.stderr_view().map_values(
                |l: (Seq<char>, Option<Seq<char>>)| l.0,
            ),
    {
        let mut r: Vec<String> = Vec::new();
        let mut i: usize = 0;
        while i < self.stderr_lines.len()
            invariant
                i <= self.stderr_lines.len(),
                r.deep_view() == self.stderr_view().map_values(
                    |l: (Seq<char>, Option<Seq<char>>)| l.0,
                ).take(i as int),
            decreases self.stderr_lines.len() - i,
        {
            let ghost before = r.deep_view();
            let x = self.stderr_lines[i].0.clone();
            r.push(x);
            assert(r.deep_view() =~= before.push(x@)) by {
                assert forall|j: int| 0 <= j < r.len() implies r.deep_view()[j] == before.push(
                    x@,
                )[j] by {}
            }
            assert(self.stderr_view()[i as int].0 == self.stderr_lines@[i as int].0@);
            assert(r.deep_view() =~= self.stderr_view().map_values(
                |l: (Seq<char>, Option<Seq<char>>)| l.0,
            ).take(i + 1));
            i = i + 1;
        }
        assert(self.stderr_view().map_values(|l: (Seq<char>, Option<Seq<char>>)| l.0).take(
            i as int,
        ) =~= self.stderr_view().map_values(|l: (Seq<char>, Option<Seq<char>>)| l.0));
        r
    }

    /// A line on standard output: kept when non-empty once trimmed, and
    /// counted as a segment when it starts with `{`.
    pub fn on_stdout(&mut self, line: &str)
        requires
            old(self).wf(),
        ensures
            final(self).wf(),
            final(self).stderr_view() == old(self).stderr_view(),
            trim(line@).len() == 0 ==> final(self).stdout_view() == old(self).stdout_view()
                && final(self).count() == old(self).count(),
            trim(line@).len() > 0 ==> final(self).stdout_view() == old(self).stdout_view().push(
                trim(line@),
            ) && final(self).count() == old(self).count() + if trim(line@)[0] == '{' {
                1nat
            } else {
                0nat
            },
    {
        let v = chars_of(line);
        let (lo, hi) = trim_bounds(&v);
        if lo < hi {
            let t = crate::text::string_from(&v, lo, hi);
            let json = v[lo] == '{';
            self.stdout_lines.push(t);
            let lines: usize = self.stdout_lines.len();
            if json {
                assert(self.segment_count < lines);
                self.segment_count = self.segment_count + 1;
            }
            assert(self.stdout_view() =~= old(self).stdout_view().push(trim(line@)));
        }
    }

    /// A line on standard error, with what a JSON decoder read in it as
    /// `{"error": ..}`: kept when non-empty once trimmed.
    pub fn on_stderr(&mut self, line: &str, script_error: Option<String>)
        requires
            old(self).wf(),
        ensures
            final(self).wf(),
            final(self).stdout_view() == old(self).stdout_view(),
            final(self).count() == old(self).count(),
            trim(line@).len() == 0 ==> final(self).stderr_view() == old(self).stderr_view(),
            trim(line@).len() > 0 ==> final(self).stderr_view() == old(self).stderr_view().push(
                (
                    trim(line@),
                    match script_error {
                        Some(e) => Some(e@),
                        None => None,
                    },
                ),
            ),
    {
        let t = trimmed(line);
        let n: usize = chars_of(t.as_str()).len();
        if n > 0 {
            let ghost e = match &script_error {
                Some(e) => Some(e@),
                None => None,
            };
            self.stderr_lines.push((t, script_error));
            assert(self.stderr_view() =~= old(self).stderr_view().push((trim(line@), e)));
        }
    }

    /// The script terminated with `code`: success on code 0, else the
    /// failure with the script's explanation.
    pub fn on_exit(&self, code: Option<i32>) -> (r: Result<(), AutoSubError>)
        ensures
            code == Some(0i32) ==> r is Ok,
            code != Some(0i32) ==> (r matches Err(AutoSubError::WhisperDecode(m)) && m@
                == "Python script thoát "@ + debug_code(code) + ": "@ + failure_detail(
                self.stderr_view(),
            )),
    {
        if code == Some(0i32) {
            return Ok(());
        }
        let mut m = "Python script thoát ".to_owned();
        match code {
            Some(c) => {
                m.append("Some(");
                crate::text::push_signed_decimal(&mut m, c as i64);
                m.append(")");
            },
            None => {
                m.append("None");
            },
        }
        m.append(": ");
        let detail = self.failure_detail();
        m.append(detail.as_str());
        Err(AutoSubError::WhisperDecode(m))
    }

    fn failure_detail(&self) -> (d: String)
        ensures
            d@ == failure_detail(self.stderr_view()),
    {
        let ghost lines = self.stderr_view();
        let n: usize = self.stderr_lines.len();
        let mut k: usize = 0;
        while k < n
            invariant
                k <= n == self.stderr_lines.len(),
                lines == self.stderr_view(),
                first_script_error(lines, 0) == first_script_error(lines, k as int),
            decreases n - k,
        {
            let entry = &self.stderr_lines[k];
            assert(lines[k as int].0 == entry.0@);
            let v = chars_of(entry.0.as_str());
            if v.len() > 0 && v[0] == '{' {
                match &entry.1 {
                    Some(e) => {
                        return e.clone();
                    },
                    None => {},
                }
            }
            k = k + 1;
        }
        let from: usize = if n > 5 {
            n - 5
        } else {
            0
        };
        let ghost tail = lines.subrange(from as int, n as int).map_values(
            |l: (Seq<char>, Option<Seq<char>>)| l.0,
        );
        let mut d = String::new();
        let mut i: usize = from;
        while i < n
            invariant
                from <= i <= n == self.stderr_lines.len(),
                lines == self.stderr_view(),
                tail == lines.subrange(from as int, n as int).map_values(
                    |l: (Seq<char>, Option<Seq<char>>)| l.0,
                ),
                d@ == join_lines(tail.take(i - from)),
            decreases n - i,
        {
            assert(tail.take(i - from + 1).drop_last() =~= tail.take(i - from));
            assert(tail[i - from] == self.stderr_lines@[i as int].0@);
            if i > from {
                push_char(&mut d, '\n');
            }
            d.append(self.stderr_lines[i].0.as_str());
            assert(tail.take(i - from + 1).last() == tail[i - from]);
            i = i + 1;
        }
        assert(tail.take(n - from) =~= tail);
        d
    }
}

} // verus!

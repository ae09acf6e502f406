//! The decisions of a transcription job (which model, which stage and how
//! far along it is) and the reading back of cached SRT subtitles.
use vstd::prelude::*;
use crate::post_process::TIME_LIMIT;
use crate::sensevoice::join_lines;
use crate::srt::{
    MAX_MICROS, find_from, lines_chars, lines_of, parse_micros, parse_micros_chars, split_chars,
    split_seq,
    lemma_char_vec_deep_view,
};
use crate::subtitle::{Cue, Segment, cues};
use crate::text::{chars_of, push_char, push_chars, sub_chars, trim, trim_bounds};
use crate::error::AutoSubError;
use crate::model_manager::{
    FileProbe, ModelConfig, ModelManager, kind_spec, models_dir, spec_config, spec_is_ready,
};
use crate::thermal::PerformanceMode;

verus! {

broadcast use vstd::seq_lib::group_seq_properties;

/// Options for a transcription job.
#[derive(Debug, Clone)]
pub struct PipelineOptions {
    pub video_path: String,
    pub language: String,
    pub model_id: String,
    pub performance_mode: PerformanceMode,
}

// ── SRT times ────────────────────────────────────────────────────────────────

/// The numbers among `ps` (unreadable pieces are skipped).
pub open spec fn parsed_values(ps: Seq<Seq<char>>) -> Seq<int>
    decreases ps.len(),
{
    if ps.len() == 0 {
        seq![]
    } else {
        let p = parsed_values(ps.drop_last());
        match parse_micros(ps.last()) {
            Some(v) => p.push(v),
            None => p,
        }
    }
}

/// Division rounding toward zero.
pub open spec fn trunc_div(a: int, b: int) -> int {
    if a >= 0 {
        a / b
    } else {
        -((-a) / b)
    }
}

/// A time limited to `[-TIME_LIMIT, TIME_LIMIT]`.
pub open spec fn clamp_time(t: int) -> int {
    if t > TIME_LIMIT {
        TIME_LIMIT as int
    } else if t < -TIME_LIMIT {
        -TIME_LIMIT
    } else {
        t
    }
}

/// An SRT time `HH:MM:SS,mmm` in microseconds: the part before the first
/// comma holds hours, minutes and seconds separated by colons (pieces that
/// are not numbers are skipped), the part after it milliseconds (0 when
/// absent or not a number). Anything but exactly three numbers reads as 0.
pub open spec fn spec_srt_time(ts: Seq<char>) -> int {
    let c = find_from(ts, seq![','], 0);
    let hms = if c < 0 {
        ts
    } else {
        ts.take(c)
    };
    let ms_part = if c < 0 {
        seq!['0']
    } else {
        ts.skip(c + 1)
    };
    let parts = parsed_values(split_seq(hms, seq![':']));
    let ms = match parse_micros(ms_part) {
        Some(v) => trunc_div(v, 1000),
        None => 0,
    };
    if parts.len() == 3 {
        clamp_time(parts[0] * 3600 + parts[1] * 60 + parts[2] + ms)
    } else {
        0
    }
}

fn numbers_of(pieces: &Vec<Vec<char>>) -> (r: Vec<i128>)
    ensures
        r@.map_values(|x: i128| x as int) == parsed_values(pieces.deep_view()),
        forall|i: int| 0 <= i < r.len() ==> -MAX_MICROS <= #[trigger] r@[i] <= MAX_MICROS,
{
    let ghost pv = pieces.deep_view();
    let mut r: Vec<i128> = Vec::new();
    let mut i: usize = 0;
    while i < pieces.len()
        invariant
            i <= pieces.len(),
            pv == pieces.deep_view(),
            r@.map_values(|x: i128| x as int) == parsed_values(pv.take(i as int)),
            forall|k: int| 0 <= k < r.len() ==> -MAX_MICROS <= #[trigger] r@[k] <= MAX_MICROS,
        decreases pieces.len() - i,
    {
        assert(pv.take(i + 1).drop_last() =~= pv.take(i as int));
        proof {
            lemma_char_vec_deep_view(pieces@[i as int]);
        }
        assert(pv.take(i + 1).last() == pieces@[i as int]@);
        match parse_micros_chars(&pieces[i]) {
            Some(x) => {
                let ghost before = r@;
                r.push(x);
                assert(r@.map_values(|x: i128| x as int) =~= before.map_values(|x: i128| x as int).push(x as int));
            },
            None => {},
        }
        i = i + 1;
    }
    assert(pv.take(pieces.len() as int) =~= pv);
    r
}

/// An SRT time in microseconds (see `spec_srt_time`).
pub fn srt_time_chars(ts: &Vec<char>) -> (t: i64)
    ensures
        t == spec_srt_time(ts@),
{
    let n: usize = ts.len();
    proof {
        reveal_strlit(",");
        reveal_strlit(":");
    }
    let comma = chars_of(",");
    assert(comma@ =~= seq![',']);
    let c = crate::srt::find_chars(ts, &comma, 0);
    proof {
        crate::srt::lemma_find_from(ts@, comma@, 0);
    }
    let (hms, ms_part): (Vec<char>, Vec<char>) = match c {
        Some(k) => (sub_chars(ts, 0, k), sub_chars(ts, k + 1, n)),
        None => (sub_chars(ts, 0, n), vec!['0']),
    };
    proof {
        match c {
            Some(k) => {
                assert(hms@ =~= ts@.take(k as int));
                assert(ms_part@ =~= ts@.skip(k + 1));
            },
            None => {
                assert(hms@ =~= ts@);
                assert(ms_part@ =~= seq!['0']);
            },
        }
    }
    let colon = chars_of(":");
    assert(colon@ =~= seq![':']);
    let pieces = split_chars(&hms, 0, &colon);
    assert(hms@.skip(0) =~= hms@);
    let parts = numbers_of(&pieces);
    let ms: i128 = match parse_micros_chars(&ms_part) {
        Some(v) => {
            if v >= 0 {
                v / 1000
            } else {
                -((-v) / 1000)
            }
        },
        None => 0,
    };
    if parts.len() == 3 {
        assert(parts@.map_values(|x: i128| x as int)[0] == parts@[0] as int);
        assert(parts@.map_values(|x: i128| x as int)[1] == parts@[1] as int);
        assert(parts@.map_values(|x: i128| x as int)[2] == parts@[2] as int);
        let total: i128 = parts[0] * 3600 + parts[1] * 60 + parts[2] + ms;
        if total > TIME_LIMIT as i128 {
            TIME_LIMIT
        } else if total < -(TIME_LIMIT as i128) {
            -TIME_LIMIT
        } else {
            total as i64
        }
    } else {
        0
    }
}

/// An SRT time `HH:MM:SS,mmm` in microseconds.
pub fn parse_srt_time(ts: &str) -> (t: i64)
    ensures
        t == spec_srt_time(ts@),
{
    let v = chars_of(ts);
    srt_time_chars(&v)
}

// ── SRT blocks ───────────────────────────────────────────────────────────────

/// One SRT block: index line, `start --> end` line, then text lines; `None`
/// when it has fewer than three lines or a malformed time line.
pub open spec fn srt_block(b: Seq<char>) -> Option<Cue> {
    let ls = lines_of(b);
    if ls.len() < 3 {
        None
    } else {
        let parts = split_seq(ls[1], " --> "@);
        if parts.len() != 2 {
            None
        } else {
            Some(
                Cue {
                    start: spec_srt_time(trim(parts[0])),
                    end: spec_srt_time(trim(parts[1])),
                    text: join_lines(ls.skip(2)),
                },
            )
        }
    }
}

/// The cues of the well-formed blocks, in order.
pub open spec fn blocks_cues(bs: Seq<Seq<char>>) -> Seq<Cue>
    decreases bs.len(),
{
    if bs.len() == 0 {
        seq![]
    } else {
        let c = blocks_cues(bs.drop_last());
        match srt_block(bs.last()) {
            Some(cue) => c.push(cue),
            None => c,
        }
    }
}

/// Subtitles read back from SRT text: the trimmed text split into blocks at
/// blank lines (`\n\n`).
pub open spec fn spec_parse_srt(srt: Seq<char>) -> Seq<Cue> {
    blocks_cues(split_seq(trim(srt), "\n\n"@))
}

fn join_line_vecs(ls: &Vec<Vec<char>>, from: usize) -> (s: String)
    requires
        from <= ls.len(),
    ensures
        s@ == join_lines(ls.deep_view().skip(from as int)),
{
    let ghost lv = ls.deep_view().skip(from as int);
    let mut s = String::new();
    let mut i: usize = from;
    while i < ls.len()
        invariant
            from <= i <= ls.len(),
            lv == ls.deep_view().skip(from as int),
            s@ == join_lines(lv.take(i - from)),
        decreases ls.len() - i,
    {
        proof {
            lemma_char_vec_deep_view(ls@[i as int]);
        }
        assert(lv.take(i - from + 1).drop_last() =~= lv.take(i - from));
        assert(lv.take(i - from + 1).last() == ls@[i as int]@);
        if i > from {
            push_char(&mut s, '\n');
        }
        push_chars(&mut s, &ls[i], 0, ls[i].len());
        assert(ls@[i as int]@.subrange(0, ls@[i as int]@.len() as int) =~= ls@[i as int]@);
        i = i + 1;
    }
    assert(lv.take(ls.len() - from) =~= lv);
    s
}

fn trimmed_vec(v: &Vec<char>) -> (r: Vec<char>)
    ensures
        r@ == trim(v@),
{
    let (lo, hi) = trim_bounds(v);
    sub_chars(v, lo, hi)
}

fn parse_block(b: &Vec<char>) -> (r: Option<Segment>)
    ensures
        match r {
            Some(seg) => srt_block(b@) == Some(seg@),
            None => srt_block(b@) is None,
        },
{
    let ls = lines_chars(b);
    if ls.len() < 3 {
        return None;
    }
    proof {
        lemma_char_vec_deep_view(ls@[1]);
    }
    proof {
        reveal_strlit(" --> ");
    }
    let arrow = chars_of(" --> ");
    let parts = split_chars(&ls[1], 0, &arrow);
    assert(ls@[1]@.skip(0) =~= ls@[1]@);
    if parts.len() != 2 {
        return None;
    }
    proof {
        lemma_char_vec_deep_view(parts@[0]);
        lemma_char_vec_deep_view(parts@[1]);
    }
    let p0 = trimmed_vec(&parts[0]);
    let p1 = trimmed_vec(&parts[1]);
    let start = srt_time_chars(&p0);
    let end = srt_time_chars(&p1);
    let text = join_line_vecs(&ls, 2);
    Some(Segment { start, end, text })
}

fn parse_blocks(blocks: &Vec<Vec<char>>) -> (r: Vec<Segment>)
    ensures
        cues(r@) == blocks_cues(blocks.deep_view()),
{
    let ghost bv = blocks.deep_view();
    let mut segments: Vec<Segment> = Vec::new();
    let mut i: usize = 0;
    while i < blocks.len()
        invariant
            i <= blocks.len(),
            bv == blocks.deep_view(),
            cues(segments@) == blocks_cues(bv.take(i as int)),
        decreases blocks.len() - i,
    {
        proof {
            lemma_char_vec_deep_view(blocks@[i as int]);
        }
        assert(bv.take(i + 1).drop_last() =~= bv.take(i as int));
        assert(bv.take(i + 1).last() == blocks@[i as int]@);
        match parse_block(&blocks[i]) {
            Some(seg) => {
                proof {
                    crate::post_process::lemma_cues_push(segments@, seg);
                }
                segments.push(seg);
            },
            None => {},
        }
        i = i + 1;
    }
    assert(bv.take(blocks.len() as int) =~= bv);
    segments
}

/// Minimal SRT parser for the cache-hit path (parse back to segments).
pub fn parse_srt_to_segments(srt: &str) -> (r: Vec<Segment>)
    ensures
        cues(r@) == spec_parse_srt(srt@),
{
    let v = chars_of(srt);
    let t = trimmed_vec(&v);
    proof {
        reveal_strlit("\n\n");
    }
    let sep = chars_of("\n\n");
    let blocks = split_chars(&t, 0, &sep);
    assert(t@.skip(0) =~= t@);
    parse_blocks(&blocks)
}


// ── Preflight ────────────────────────────────────────────────────────────────

/// Message for a model id that the catalogue does not know.
pub open spec fn unknown_model_message(id: Seq<char>) -> Seq<char> {
    "Unknown model ID: "@ + id
}

/// Message for a known model whose files or VAD model are missing.
pub open spec fn not_ready_message(id: Seq<char>) -> Seq<char> {
    "Model '"@ + id + "' is not ready (VAD or model files missing). Please run setup-models.sh"@
}

/// `r` is what a job asking for model `id` under `base` starts with: the
/// model's config when it is known and ready, else the reason it cannot run.
pub open spec fn preflight_result(
    base: Seq<char>,
    id: Seq<char>,
    probe: FileProbe,
    r: Result<ModelConfig, AutoSubError>,
) -> bool {
    match spec_config(base, id, probe) {
        None => r matches Err(AutoSubError::WhisperDecode(m)) && m@ == unknown_model_message(id),
        Some(k) => if spec_is_ready(base, id, probe) {
            r matches Ok(c) && c.id@ == id && kind_spec(c.kind) == k
        } else {
            r matches Err(AutoSubError::WhisperDecode(m)) && m@ == not_ready_message(id)
        },
    }
}

/// The config of model `id` under `base`, checked to be ready.
pub fn preflight_in(base: &str, id: &str, probe: &FileProbe) -> (r: Result<ModelConfig, AutoSubError>)
    ensures
        preflight_result(base@, id@, *probe, r),
{
    let config = match ModelManager::config_in(base, id, probe) {
        Some(c) => c,
        None => {
            let mut m = "Unknown model ID: ".to_owned();
            m.append(id);
            return Err(AutoSubError::WhisperDecode(m));
        },
    };
    if !ModelManager::is_ready_in(base, id, probe) {
        let mut m = "Model '".to_owned();
        m.append(id);
        m.append("' is not ready (VAD or model files missing). Please run setup-models.sh");
        return Err(AutoSubError::WhisperDecode(m));
    }
    Ok(config)
}

/// The config of model `id` in the models directory, checked to be ready.
pub fn preflight(id: &str, probe: &FileProbe) -> (r: Result<ModelConfig, AutoSubError>)
    ensures
        exists|h: Option<Seq<char>>| preflight_result(models_dir(h), id@, *probe, r),
{
    let base = ModelManager::base_dir();
    preflight_in(base.as_str(), id, probe)
}

// ── Stages and progress ──────────────────────────────────────────────────────

/// The stages a job reports, each with a label and an overall percentage.
#[derive(Debug, Clone, Copy, PartialEq, Eq, Structural)]
pub enum Stage {
    CheckingCache,
    DoneFromCache,
    ExtractingAudio,
    Transcribing,
    Validating,
    PostProcessing,
    Exporting,
    Done,
}

/// The label shown for a stage.
pub open spec fn stage_label(s: Stage) -> Seq<char> {
    match s {
        Stage::CheckingCache => "Checking cache"@,
        Stage::DoneFromCache => "Done (from cache)"@,
        Stage::ExtractingAudio => "Extracting audio"@,
        Stage::Transcribing => "Transcribing"@,
        Stage::Validating => "Validating"@,
        Stage::PostProcessing => "Post-processing"@,
        Stage::Exporting => "Exporting"@,
        Stage::Done => "Done"@,
    }
}

/// The overall progress when a stage starts, in millionths of a percent.
pub open spec fn stage_percent(s: Stage) -> int {
    match s {
        Stage::CheckingCache => 2_000_000,
        Stage::DoneFromCache => 100_000_000,
        Stage::ExtractingAudio => 5_000_000,
        Stage::Transcribing => 35_000_000,
        Stage::Validating => 80_000_000,
        Stage::PostProcessing => 85_000_000,
        Stage::Exporting => 95_000_000,
        Stage::Done => 100_000_000,
    }
}

/// Position of a stage in a job that does not hit the cache.
pub open spec fn stage_rank(s: Stage) -> int {
    match s {
        Stage::CheckingCache => 0,
        Stage::ExtractingAudio => 1,
        Stage::Transcribing => 2,
        Stage::Validating => 3,
        Stage::PostProcessing => 4,
        Stage::Exporting => 5,
        Stage::Done => 6,
        Stage::DoneFromCache => 6,
    }
}

/// A job may report `b` after `a`: later on the main path, or the cached
/// result right after the cache check.
pub open spec fn may_follow(a: Stage, b: Stage) -> bool {
    ||| a == b
    ||| (a == Stage::CheckingCache && b == Stage::DoneFromCache)
    ||| (a != Stage::DoneFromCache && b != Stage::DoneFromCache && stage_rank(a) < stage_rank(b))
}

impl Stage {
    /// The label shown for this stage.
    pub fn label(&self) -> (s: String)
        ensures
            s@ == stage_label(*self),
    {
        match self {
            Stage::CheckingCache => "Checking cache".to_owned(),
            Stage::DoneFromCache => "Done (from cache)".to_owned(),
            Stage::ExtractingAudio => "Extracting audio".to_owned(),
            Stage::Transcribing => "Transcribing".to_owned(),
            Stage::Validating => "Validating".to_owned(),
            Stage::PostProcessing => "Post-processing".to_owned(),
            Stage::Exporting => "Exporting".to_owned(),
            Stage::Done => "Done".to_owned(),
        }
    }

    /// The overall progress when this stage starts, in millionths of a
    /// percent.
    pub fn percent(&self) -> (p: i128)
        ensures
            p == stage_percent(*self),
    {
        match self {
            Stage::CheckingCache => 2_000_000,
            Stage::DoneFromCache => 100_000_000,
            Stage::ExtractingAudio => 5_000_000,
            Stage::Transcribing => 35_000_000,
            Stage::Validating => 80_000_000,
            Stage::PostProcessing => 85_000_000,
            Stage::Exporting => 95_000_000,
            Stage::Done => 100_000_000,
        }
    }
}

/// How many times a failed step (audio extraction, transcription) is tried
/// again.
pub const MAX_RETRIES: u32 = 2;

/// Whether to run a step again after an attempt: only when it failed and
/// fewer than `MAX_RETRIES` retries were made.
pub fn retry_next(retries: u32, failed: bool) -> (r: bool)
    ensures
        r == (failed && retries < MAX_RETRIES),
{
    failed && retries < MAX_RETRIES
}

/// Largest magnitude of a progress value that the scaling functions take.
pub const PROGRESS_LIMIT: i128 = 1_000_000_000_000_000_000_000_000_000_000_000_000;

/// `x / 100`, rounding toward zero.
fn div100(x: i128) -> (r: i128)
    requires
        x > i128::MIN,
    ensures
        r == trunc_div(x as int, 100),
{
    if x >= 0 {
        x / 100
    } else {
        -((-x) / 100)
    }
}

/// Overall progress while audio is extracted: the extraction's own progress
/// `p` (millionths of a percent) mapped onto 5 % to 35 %.
pub open spec fn spec_extraction_progress(p: int) -> int {
    5_000_000 + trunc_div(p * 30, 100)
}

/// Overall progress while audio is transcribed: the transcription's own
/// progress `p` (millionths of a percent) mapped onto 35 % to 80 %.
pub open spec fn spec_transcription_progress(p: int) -> int {
    35_000_000 + trunc_div(p * 45, 100)
}

/// Overall progress during extraction (see `spec_extraction_progress`).
pub fn extraction_progress(p: i128) -> (r: i128)
    requires
        -PROGRESS_LIMIT <= p <= PROGRESS_LIMIT,
    ensures
        r == spec_extraction_progress(p as int),
{
    5_000_000 + div100(p * 30)
}

/// Overall progress during transcription (see
/// `spec_transcription_progress`).
pub fn transcription_progress(p: i128) -> (r: i128)
    requires
        -PROGRESS_LIMIT <= p <= PROGRESS_LIMIT,
    ensures
        r == spec_transcription_progress(p as int),
{
    35_000_000 + div100(p * 45)
}

/// The reported progress never goes back: a stage that may follow another
/// starts at least as far along, and the progress within extraction and
/// transcription, for a stage progress between 0 % and 100 %, stays between
/// the start of that stage and the start of the next.
pub proof fn lemma_progress_never_goes_back(a: Stage, b: Stage, p: int)
    requires
        0 <= p <= 100_000_000,
    ensures
        may_follow(a, b) ==> stage_percent(a) <= stage_percent(b),
        stage_percent(Stage::ExtractingAudio) <= spec_extraction_progress(p) <= stage_percent(
            Stage::Transcribing,
        ),
        stage_percent(Stage::Transcribing) <= spec_transcription_progress(p) <= stage_percent(
            Stage::Validating,
        ),
{
    assert(0 <= p * 30 <= 3_000_000_000) by (nonlinear_arith)
        requires
            0 <= p <= 100_000_000,
    ;
    assert(0 <= p * 45 <= 4_500_000_000) by (nonlinear_arith)
        requires
            0 <= p <= 100_000_000,
    ;
}

} // verus!

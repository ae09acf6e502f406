//! What the machine has installed: the external programs, the VAD model and
//! the recognition models.
use vstd::prelude::*;
use crate::model_manager::{
    FileProbe, ModelManager, VAD_MIN_BYTES, models_dir, spec_file_ok, spec_ready_ids,
    spec_vad_path,
};

verus! {

/// The result of an environment audit.
#[derive(Debug, Clone)]
pub struct EnvironmentAudit {
    pub ffmpeg: bool,
    pub sherpa_onnx: bool,
    pub ytdlp: bool,
    pub vad_ready: bool,
    pub ready_models: Vec<String>,
    pub models_dir: String,
}

/// `a` reports the programs as found, and the VAD model and the ready
/// models under the models directory `base`.
pub open spec fn is_audit(
    a: EnvironmentAudit,
    ffmpeg: bool,
    sherpa_onnx: bool,
    ytdlp: bool,
    base: Seq<char>,
    probe: FileProbe,
) -> bool {
    &&& a.ffmpeg == ffmpeg
    &&& a.sherpa_onnx == sherpa_onnx
    &&& a.ytdlp == ytdlp
    &&& a.vad_ready == spec_file_ok(probe, spec_vad_path(base), VAD_MIN_BYTES)
    &&& a.ready_models.deep_view() == spec_ready_ids(base, probe)
    &&& a.models_dir@ == base
}

/// Audit of the models under `base`, given which programs were found.
pub fn audit_environment_in(
    base: &str,
    ffmpeg: bool,
    sherpa_onnx: bool,
    ytdlp: bool,
    probe: &FileProbe,
) -> (a: EnvironmentAudit)
    ensures
        is_audit(a, ffmpeg, sherpa_onnx, ytdlp, base@, *probe),
{
    EnvironmentAudit {
        ffmpeg,
        sherpa_onnx,
        ytdlp,
        vad_ready: ModelManager::vad_ready_in(base, probe),
        ready_models: ModelManager::list_ready_ids_in(base, probe),
        models_dir: base.to_owned(),
    }
}

/// Audit of the models directory under the home directory, given which
/// programs were found.
pub fn audit_environment(ffmpeg: bool, sherpa_onnx: bool, ytdlp: bool, probe: &FileProbe) -> (a:
    EnvironmentAudit)
    ensures
        exists|h: Option<Seq<char>>| is_audit(a, ffmpeg, sherpa_onnx, ytdlp, models_dir(h), *probe),
{
    let base = ModelManager::base_dir();
    audit_environment_in(base.as_str(), ffmpeg, sherpa_onnx, ytdlp, probe)
}

} // verus!

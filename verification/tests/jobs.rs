use autosub::environment::{audit_environment, audit_environment_in};
use autosub::error::AutoSubError;
use autosub::model_manager::{FileProbe, ModelKind, ModelManager};
use autosub::pipeline::{
    extraction_progress, preflight, preflight_in, retry_next, transcription_progress, Stage,
};
use autosub::sensevoice::TranscribeCollector;

fn paraformer_probe(base: &str, with_vad: bool) -> FileProbe {
    let mut files = vec![
        (format!("{}/paraformer-zh/model.int8.onnx", base), 6 * 1024 * 1024),
        (format!("{}/paraformer-zh/tokens.txt", base), 500),
    ];
    if with_vad {
        files.push((format!("{}/silero_vad.onnx", base), 2_000_000));
    }
    FileProbe { files }
}

#[test]
fn preflight_accepts_a_ready_model() {
    let probe = paraformer_probe("/m", true);
    let c = preflight_in("/m", "paraformer-zh", &probe).unwrap();
    assert_eq!(c.id, "paraformer-zh");
    match c.kind {
        ModelKind::Paraformer { model, tokens } => {
            assert_eq!(model, "/m/paraformer-zh/model.int8.onnx");
            assert_eq!(tokens, "/m/paraformer-zh/tokens.txt");
        }
        _ => panic!("wrong kind"),
    }
}

#[test]
fn preflight_refuses_unknown_and_missing_models() {
    let probe = paraformer_probe("/m", true);
    assert_eq!(
        preflight_in("/m", "whisper-large", &probe).unwrap_err(),
        AutoSubError::WhisperDecode("Unknown model ID: whisper-large".into())
    );
    assert_eq!(
        preflight_in("/m", "fire-red-v2", &probe).unwrap_err(),
        AutoSubError::WhisperDecode(
            "Model 'fire-red-v2' is not ready (VAD or model files missing). Please run setup-models.sh"
                .into()
        )
    );
    let no_vad = paraformer_probe("/m", false);
    assert!(preflight_in("/m", "paraformer-zh", &no_vad).is_err());
    let home = ModelManager::get_models_dir();
    assert!(preflight("paraformer-zh", &paraformer_probe(&home, true)).is_ok());
}

#[test]
fn stage_labels_and_percentages() {
    let stages = [
        (Stage::CheckingCache, "Checking cache", 2_000_000),
        (Stage::DoneFromCache, "Done (from cache)", 100_000_000),
        (Stage::ExtractingAudio, "Extracting audio", 5_000_000),
        (Stage::Transcribing, "Transcribing", 35_000_000),
        (Stage::Validating, "Validating", 80_000_000),
        (Stage::PostProcessing, "Post-processing", 85_000_000),
        (Stage::Exporting, "Exporting", 95_000_000),
        (Stage::Done, "Done", 100_000_000),
    ];
    for (stage, label, percent) in stages {
        assert_eq!(stage.label(), label);
        assert_eq!(stage.percent(), percent);
    }
}

#[test]
fn stage_progress_is_scaled_into_its_band() {
    assert_eq!(extraction_progress(0), 5_000_000);
    assert_eq!(extraction_progress(50_000_000), 20_000_000);
    assert_eq!(extraction_progress(100_000_000), 35_000_000);
    assert_eq!(extraction_progress(-10), 5_000_000 - 3);
    assert_eq!(transcription_progress(0), 35_000_000);
    assert_eq!(transcription_progress(85_000_000), 73_250_000);
    assert_eq!(transcription_progress(100_000_000), 80_000_000);
    // Along a job the reported numbers never go back.
    let along = [
        Stage::CheckingCache.percent(),
        Stage::ExtractingAudio.percent(),
        extraction_progress(100_000_000),
        Stage::Transcribing.percent(),
        transcription_progress(100_000_000),
        Stage::Validating.percent(),
        Stage::PostProcessing.percent(),
        Stage::Exporting.percent(),
        Stage::Done.percent(),
    ];
    assert!(along.windows(2).all(|w| w[0] <= w[1]));
}

#[test]
fn transcription_progress_estimate() {
    let mut c = TranscribeCollector::new();
    assert_eq!(c.progress(), 0);
    c.on_stdout("{\"start\": 1}");
    assert_eq!(c.progress(), 566_666);
    for _ in 0..200 {
        c.on_stdout("{}");
    }
    assert_eq!(c.progress(), 85_000_000);
}

#[test]
fn environment_audit() {
    let probe = paraformer_probe("/m", true);
    let a = audit_environment_in("/m", true, false, true, &probe);
    assert!(a.ffmpeg && !a.sherpa_onnx && a.ytdlp && a.vad_ready);
    assert_eq!(a.ready_models, vec!["paraformer-zh".to_string()]);
    assert_eq!(a.models_dir, "/m");
    let b = audit_environment_in("/m", false, false, false, &paraformer_probe("/m", false));
    assert!(!b.vad_ready && b.ready_models.is_empty());
    let home = audit_environment(true, true, true, &FileProbe { files: vec![] });
    assert_eq!(home.models_dir, ModelManager::get_models_dir());
}

#[test]
fn failed_steps_are_retried_twice() {
    assert!(retry_next(0, true));
    assert!(retry_next(1, true));
    assert!(!retry_next(2, true));
    assert!(!retry_next(0, false));
}

#[test]
fn readiness_under_a_given_directory() {
    let probe = paraformer_probe("/m", true);
    assert!(ModelManager::is_ready_in("/m", "paraformer-zh", &probe));
    assert!(!ModelManager::is_ready_in("/m", "fire-red-v2", &probe));
    assert!(ModelManager::vad_ready_in("/m", &probe));
    assert_eq!(ModelManager::list_ready_ids_in("/m", &probe), vec!["paraformer-zh".to_string()]);
    let infos = ModelManager::all_model_info_in("/m", &probe);
    assert_eq!(infos.len(), 4);
    assert!(infos[2].is_downloaded);
}

use autosub::cache::{
    cache_dir, cache_dir_in, cache_hit, cached_srt, file_fingerprint, final_srt_path, meta_path,
    CacheMeta,
};
use autosub::error::AutoSubError;
use autosub::model_manager::{FileProbe, ModelKind, ModelManager};
use autosub::pipeline::{parse_srt_time, parse_srt_to_segments};
use autosub::thermal::{recommended_threads, PerformanceMode};

#[test]
fn threads_per_mode() {
    assert_eq!(recommended_threads(PerformanceMode::Balanced), 4);
    assert_eq!(recommended_threads(PerformanceMode::MaxSpeed), 8);
}

#[test]
fn config_paths_under_base() {
    let empty = FileProbe { files: vec![] };
    let c = ModelManager::config_in("/h/.autosub/models", "fire-red-v2", &empty).unwrap();
    assert_eq!(c.id, "fire-red-v2");
    match c.kind {
        ModelKind::FireRedAsr { encoder, decoder, tokens } => {
            assert_eq!(encoder, "/h/.autosub/models/fire-red-v2/encoder.int8.onnx");
            assert_eq!(decoder, "/h/.autosub/models/fire-red-v2/decoder.int8.onnx");
            assert_eq!(tokens, "/h/.autosub/models/fire-red-v2/tokens.txt");
        }
        _ => panic!("wrong kind"),
    }
    assert!(ModelManager::config_in("/h", "whisper-large", &empty).is_none());
}

#[test]
fn sense_voice_2025_prefers_int8() {
    let base = "/h/models/";
    let int8 = FileProbe { files: vec![("/h/models/sense-voice-2025/model.int8.onnx".into(), 1)] };
    let empty = FileProbe { files: vec![] };
    let with = ModelManager::config_in(base, "sense-voice-2025", &int8).unwrap();
    let without = ModelManager::config_in(base, "sense-voice-2025", &empty).unwrap();
    match (with.kind, without.kind) {
        (ModelKind::SenseVoice { model: a, .. }, ModelKind::SenseVoice { model: b, .. }) => {
            assert_eq!(a, "/h/models/sense-voice-2025/model.int8.onnx");
            assert_eq!(b, "/h/models/sense-voice-2025/model.onnx");
        }
        _ => panic!("wrong kind"),
    }
}

#[test]
fn files_valid_thresholds() {
    let kind = ModelKind::FireRedAsr { encoder: "e".into(), decoder: "d".into(), tokens: "t".into() };
    let probe = FileProbe { files: vec![("e".into(), 400), ("d".into(), 100), ("t".into(), 100)] };
    assert!(kind.files_valid(400, &probe));
    let small = FileProbe { files: vec![("e".into(), 400), ("d".into(), 99), ("t".into(), 100)] };
    assert!(!kind.files_valid(400, &small));
    let no_tokens = FileProbe { files: vec![("e".into(), 400), ("d".into(), 100), ("t".into(), 99)] };
    assert!(!kind.files_valid(400, &no_tokens));
}

fn full_probe(base: &str, with_vad: bool) -> FileProbe {
    let mut files = vec![
        (format!("{}/paraformer-zh/model.int8.onnx", base), 6 * 1024 * 1024),
        (format!("{}/paraformer-zh/tokens.txt", base), 500),
    ];
    if with_vad {
        files.push((format!("{}/silero_vad.onnx", base), 2_000_000));
    }
    FileProbe { files }
}

#[test]
fn readiness_needs_vad_and_files() {
    let base = ModelManager::get_models_dir();
    assert!(base.ends_with(".autosub/models"));
    let probe = full_probe(&base, true);
    assert!(ModelManager::is_ready("paraformer-zh", &probe));
    assert!(!ModelManager::is_ready("sense-voice-2024", &probe));
    assert!(!ModelManager::is_ready("unknown", &probe));
    assert!(ModelManager::vad_ready(&probe));
    let no_vad = full_probe(&base, false);
    assert!(!ModelManager::is_ready("paraformer-zh", &no_vad));
    assert!(!ModelManager::vad_ready(&no_vad));
    assert_eq!(ModelManager::vad_model_path(), format!("{}/silero_vad.onnx", base));
    assert!(ModelManager::get_config("paraformer-zh", &probe).is_some());
}

#[test]
fn catalogue_and_ready_ids() {
    let base = ModelManager::get_models_dir();
    let probe = full_probe(&base, true);
    let infos = ModelManager::all_model_info(&probe);
    let ids: Vec<&str> = infos.iter().map(|m| m.id.as_str()).collect();
    assert_eq!(ids, vec!["sense-voice-2024", "sense-voice-2025", "paraformer-zh", "fire-red-v2"]);
    assert_eq!(infos[2].size_mb, 220);
    assert_eq!(infos[2].tier, 2);
    assert_eq!(infos[3].languages, vec!["zh", "en", "yue", "dialect"]);
    assert!(infos[2].is_downloaded && !infos[0].is_downloaded);
    assert_eq!(ModelManager::list_ready_ids(&probe), vec!["paraformer-zh".to_string()]);
    assert!(ModelManager::list_ready_ids(&FileProbe { files: vec![] }).is_empty());
}

#[test]
fn models_dir_for_home() {
    assert_eq!(ModelManager::models_dir_for(Some("/home/u".into())), "/home/u/.autosub/models");
    assert_eq!(ModelManager::models_dir_for(Some("/".into())), "/.autosub/models");
    assert_eq!(ModelManager::models_dir_for(None), "./.autosub/models");
}

#[test]
fn cache_meta_roundtrip() {
    let meta = CacheMeta::new("sense-voice-2024", "zh", 12_500_000);
    assert!(cache_hit(&meta, "sense-voice-2024", "zh"));
    assert!(!cache_hit(&meta, "sense-voice-2024", "en"));
    assert!(!cache_hit(&meta, "paraformer-zh", "zh"));
    let mut old = meta.clone();
    old.pipeline_version = "v4".into();
    assert!(!cache_hit(&old, "sense-voice-2024", "zh"));
    assert_eq!(cached_srt("/c", &meta, "sense-voice-2024", "zh"), Some("/c/final.srt".into()));
    assert_eq!(cached_srt("/c", &old, "sense-voice-2024", "zh"), None);
    assert_eq!(meta_path("/c/"), "/c/meta.json");
    assert_eq!(final_srt_path("/c"), "/c/final.srt");
}

#[test]
fn fingerprint_is_sha256_hex() {
    assert_eq!(
        file_fingerprint(b"abc", "/v.mp4", None),
        "82722436042868319edf332f44bfa1fb9b265657af35133fd5af9360a2b2cc57"
    );
    assert_eq!(
        file_fingerprint(b"abc", "/v.mp4", Some(1234)),
        "39b84cf5947b1b4f17bd5553b3af1d4968f68e6201e897a7fd358a963462cfb4"
    );
    let fp = file_fingerprint(b"abc", "/v.mp4", None);
    assert_eq!(cache_dir_in("/home/u", &fp), "/home/u/.autosub/cache/8272243604286831");
    match cache_dir("/v.mp4", b"abc", None) {
        Ok(d) => assert!(d.ends_with("/.autosub/cache/8272243604286831")),
        Err(e) => assert_eq!(e, AutoSubError::Cache("Cannot determine home directory".into())),
    }
}

#[test]
fn srt_times() {
    assert_eq!(parse_srt_time("00:00:01,500"), 1_500_000);
    assert_eq!(parse_srt_time("01:02:03,004"), 3_723_004_000);
    assert_eq!(parse_srt_time("00:00:02"), 2_000_000);
    assert_eq!(parse_srt_time("00:02"), 0);
    assert_eq!(parse_srt_time("00:00:01,x"), 1_000_000);
    assert_eq!(parse_srt_time("00:x:00:01,250"), 1_250_000);
    assert_eq!(parse_srt_time("00:00:01.5,250"), 1_750_000);
}

#[test]
fn srt_blocks_back_to_segments() {
    let srt = "1\n00:00:01,500 --> 00:00:03,250\nHello\nworld\n\n2\n00:01:00,000 --> 00:01:02,000\nBye\n\n3\nbroken\n";
    let segs = parse_srt_to_segments(srt);
    assert_eq!(segs.len(), 2);
    assert_eq!(segs[0].start, 1_500_000);
    assert_eq!(segs[0].end, 3_250_000);
    assert_eq!(segs[0].text, "Hello\nworld");
    assert_eq!(segs[1].start, 60_000_000);
    assert_eq!(segs[1].end, 62_000_000);
    assert_eq!(segs[1].text, "Bye");
    let crlf = "1\r\n00:00:01,000 --> 00:00:02,000\r\nHi\r\n";
    let segs = parse_srt_to_segments(crlf);
    assert_eq!(segs.len(), 1);
    assert_eq!(segs[0].text, "Hi");
}

#[test]
fn error_messages() {
    assert_eq!(AutoSubError::Cancelled.message(), "Job cancelled");
    assert_eq!(AutoSubError::Cache("x".into()).message(), "Cache error: x");
    assert_eq!(AutoSubError::ParseFailed("y".into()).message(), "JSON parse failed: y");
}

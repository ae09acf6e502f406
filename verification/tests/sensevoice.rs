use autosub::error::AutoSubError;
use autosub::model_manager::{ModelConfig, ModelKind};
use autosub::sensevoice::{
    build_python_args, model_dir, parse_json_output, validate_dir, validate_file, JsonLine,
    OutputLine, TranscribeCollector,
};

/// Reads a line as the script's JSON: a segment, an error or anything else.
fn decode(line: &str) -> JsonLine {
    let value: serde_json::Value = match serde_json::from_str(line.trim()) {
        Ok(v) => v,
        Err(_) => return JsonLine::Other,
    };
    let start = value.get("start").and_then(|v| v.as_f64());
    let end = value.get("end").and_then(|v| v.as_f64());
    let text = value.get("text").and_then(|v| v.as_str());
    if let (Some(s), Some(e), Some(t)) = (start, end, text) {
        return JsonLine::Segment {
            start: ((s as f32) as f64 * 1_000_000.0).round() as i64,
            end: ((e as f32) as f64 * 1_000_000.0).round() as i64,
            text: t.to_string(),
        };
    }
    if let Some(err) = value.get("error").and_then(|v| v.as_str()) {
        return JsonLine::Error { error: err.to_string() };
    }
    JsonLine::Other
}

fn lines_of(raw: &[String]) -> Vec<OutputLine> {
    raw.iter().map(|l| OutputLine { text: l.clone(), json: decode(l) }).collect()
}

#[test]
fn test_parse_valid_json_segment() {
    let lines = vec![r#"{"start": 0.24, "end": 3.52, "text": "你好世界"}"#.to_string()];
    let result = parse_json_output(&lines_of(&lines), &vec![]).unwrap();
    assert_eq!(result.len(), 1);
    assert!((result[0].start - 240_000).abs() < 1_000);
    assert!((result[0].end - 3_520_000).abs() < 1_000);
    assert_eq!(result[0].text, "你好世界");
}

#[test]
fn test_skip_empty_text() {
    let lines = vec![
        r#"{"start": 0.0, "end": 1.0, "text": "  "}"#.to_string(),
        r#"{"start": 1.0, "end": 2.0, "text": "hello"}"#.to_string(),
    ];
    let result = parse_json_output(&lines_of(&lines), &vec![]).unwrap();
    assert_eq!(result.len(), 1);
    assert_eq!(result[0].text, "hello");
}

#[test]
fn test_skip_invalid_timestamps() {
    let lines = vec![
        r#"{"start": 5.0, "end": 2.0, "text": "reversed"}"#.to_string(),
        r#"{"start": 1.0, "end": 3.0, "text": "valid"}"#.to_string(),
    ];
    let result = parse_json_output(&lines_of(&lines), &vec![]).unwrap();
    assert_eq!(result.len(), 1);
    assert_eq!(result[0].text, "valid");
}

#[test]
fn test_script_error_json() {
    let lines = vec![r#"{"error": "sherpa_onnx chưa được cài"}"#.to_string()];
    let result = parse_json_output(&lines_of(&lines), &vec![]);
    assert!(result.is_err());
    assert!(result.unwrap_err().message().contains("Script error"));
}

#[test]
fn test_skip_non_json_lines() {
    let lines = vec![
        "Loading model...".to_string(),
        r#"{"start": 0.5, "end": 2.5, "text": "test"}"#.to_string(),
        "Done".to_string(),
    ];
    let result = parse_json_output(&lines_of(&lines), &vec![]).unwrap();
    assert_eq!(result.len(), 1);
}

#[test]
fn test_pip_error_detection() {
    let lines: Vec<String> = vec![];
    let stderr = vec!["ModuleNotFoundError: No module named 'sherpa_onnx'".to_string()];
    let result = parse_json_output(&lines_of(&lines), &stderr);
    assert!(result.is_err());
}

#[test]
fn test_multiple_segments() {
    let lines = vec![
        r#"{"start": 0.0, "end": 2.0, "text": "first"}"#.to_string(),
        r#"{"start": 3.0, "end": 5.0, "text": "second"}"#.to_string(),
        r#"{"start": 6.0, "end": 8.0, "text": "third"}"#.to_string(),
    ];
    let result = parse_json_output(&lines_of(&lines), &vec![]).unwrap();
    assert_eq!(result.len(), 3);
    assert_eq!(result[2].text, "third");
}

#[test]
fn parse_output_error_message_and_variant() {
    let lines = vec![
        r#"{"start": 0.0, "end": 2.0, "text": "first"}"#.to_string(),
        r#"{"error": "boom"}"#.to_string(),
        r#"{"start": 3.0, "end": 5.0, "text": "second"}"#.to_string(),
    ];
    let result = parse_json_output(&lines_of(&lines), &vec![]);
    assert_eq!(result, Err(AutoSubError::ParseFailed("Script error: boom".to_string())));
}

#[test]
fn parse_output_pip_error_only_without_segments() {
    let stderr = vec!["ImportError: cannot import".to_string()];
    let ok = vec![r#"{"start": 0.0, "end": 2.0, "text": "x"}"#.to_string()];
    assert_eq!(parse_json_output(&lines_of(&ok), &stderr).unwrap().len(), 1);
    let none: Vec<String> = vec![];
    assert_eq!(
        parse_json_output(&lines_of(&none), &stderr),
        Err(AutoSubError::WhisperDecode(
            "sherpa_onnx Python package chưa được cài.\nChạy: pip3 install sherpa-onnx numpy"
                .to_string()
        ))
    );
}

#[test]
fn parse_output_trims_text_and_drops_negative_start() {
    let lines = vec![
        r#"   {"start": -1.0, "end": 2.0, "text": "neg"}"#.to_string(),
        r#"  {"start": 1.0, "end": 2.0, "text": "  padded  "}  "#.to_string(),
    ];
    let result = parse_json_output(&lines_of(&lines), &vec![]).unwrap();
    assert_eq!(result.len(), 1);
    assert_eq!(result[0].text, "padded");
    assert_eq!(result[0].start, 1_000_000);
    assert_eq!(result[0].end, 2_000_000);
}

fn sense_voice() -> ModelConfig {
    ModelConfig {
        id: "sense-voice-2024".into(),
        kind: ModelKind::SenseVoice {
            model: "/m/sense-voice-2024/model.int8.onnx".into(),
            tokens: "/m/sense-voice-2024/tokens.txt".into(),
        },
    }
}

#[test]
fn python_args_for_sense_voice() {
    let cfg = sense_voice();
    assert_eq!(model_dir(&cfg), Some("/m/sense-voice-2024".to_string()));
    let args = build_python_args(&cfg, "/m/silero_vad.onnx", "/tmp/audio.wav", 8, true).unwrap();
    assert_eq!(
        args,
        vec![
            "--model-dir",
            "/m/sense-voice-2024",
            "--model-type",
            "sense-voice",
            "--vad",
            "/m/silero_vad.onnx",
            "--threads",
            "8",
            "/tmp/audio.wav"
        ]
    );
}

#[test]
fn python_args_for_fire_red_and_missing_dir() {
    let cfg = ModelConfig {
        id: "fire-red-v2".into(),
        kind: ModelKind::FireRedAsr {
            encoder: "/m/fire-red-v2/encoder.int8.onnx".into(),
            decoder: "/m/fire-red-v2/decoder.int8.onnx".into(),
            tokens: "/m/fire-red-v2/tokens.txt".into(),
        },
    };
    let args = build_python_args(&cfg, "v", "a", 12, true).unwrap();
    assert_eq!(args[3], "fire-red-v2");
    assert_eq!(args[7], "12");
    let err = build_python_args(&cfg, "v", "a", 12, false).unwrap_err();
    assert_eq!(
        err,
        AutoSubError::WhisperDecode(
            "FireRedASR model dir không tồn tại: /m/fire-red-v2\nChạy: ./build-scripts/setup-models.sh"
                .into()
        )
    );
}

#[test]
fn python_args_invalid_model_path() {
    let cfg = ModelConfig {
        id: "paraformer-zh".into(),
        kind: ModelKind::Paraformer { model: "/".into(), tokens: "t".into() },
    };
    assert_eq!(
        build_python_args(&cfg, "v", "a", 4, true),
        Err(AutoSubError::WhisperDecode("Invalid model path".into()))
    );
}

#[test]
fn validate_file_and_dir_messages() {
    assert_eq!(validate_file("/a.wav", "Audio", 44, Some(44)), Ok(()));
    assert_eq!(
        validate_file("/a.wav", "Audio", 44, Some(10)),
        Err(AutoSubError::WhisperDecode("Audio quá nhỏ (10 bytes): /a.wav".into()))
    );
    assert_eq!(
        validate_file("/a.wav", "Audio", 44, None),
        Err(AutoSubError::WhisperDecode("Audio không tồn tại: /a.wav".into()))
    );
    assert_eq!(validate_dir("/d", "Dir", true), Ok(()));
    assert!(validate_dir("/d", "Dir", false).is_err());
}

#[test]
fn collector_counts_json_lines_and_reports_failures() {
    let mut c = TranscribeCollector::new();
    c.on_stdout("  {\"start\": 0}  ");
    c.on_stdout("   ");
    c.on_stdout("Loading");
    assert_eq!(c.segment_count(), 1);
    assert_eq!(c.stdout_lines(), &vec!["{\"start\": 0}".to_string(), "Loading".to_string()]);
    assert_eq!(c.on_exit(Some(0)), Ok(()));
    for i in 0..7 {
        c.on_stderr(&format!("line {}", i), None);
    }
    assert_eq!(
        c.on_exit(Some(1)),
        Err(AutoSubError::WhisperDecode(
            "Python script thoát Some(1): line 2\nline 3\nline 4\nline 5\nline 6".into()
        ))
    );
    c.on_stderr("{\"error\": \"no model\"}", Some("no model".into()));
    assert_eq!(
        c.on_exit(None),
        Err(AutoSubError::WhisperDecode("Python script thoát None: no model".into()))
    );
    assert_eq!(
        c.on_exit(Some(-2)).unwrap_err().message(),
        "Whisper decode failed: Python script thoát Some(-2): no model"
    );
}

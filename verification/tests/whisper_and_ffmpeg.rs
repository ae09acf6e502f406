use autosub::error::AutoSubError;
use autosub::ffmpeg::{
    check_inputs, exit_status, ffmpeg_args, ffprobe_args, ffprobe_beside, ffprobe_path, out_time,
    parse_duration, progress_percent,
};
use autosub::whisper::{
    check_audio, check_json_complete, disconnected_error, exit_error, missing_output_error,
    parse_timestamp, whisper_args, whisper_exit, whisper_progress, whisper_segments, AudioFile,
    WhisperItem,
};

fn strings(v: &[&str]) -> Vec<String> {
    v.iter().map(|s| s.to_string()).collect()
}

fn message(e: AutoSubError) -> String {
    match e {
        AutoSubError::WhisperDecode(m)
        | AutoSubError::ParseFailed(m)
        | AutoSubError::AudioExtract(m)
        | AutoSubError::SidecarNotFound(m) => m,
        other => panic!("unexpected error {:?}", other),
    }
}

#[test]
fn whisper_timestamps_in_micros() {
    assert_eq!(parse_timestamp("00:01:02,500"), 62_500_000);
    assert_eq!(parse_timestamp("01:00:00.000"), 3_600_000_000);
    assert_eq!(parse_timestamp("00:00:00,040"), 40_000);
    assert_eq!(parse_timestamp("1:2"), 0);
    assert_eq!(parse_timestamp("aa:00:01,000"), 1_000_000);
    assert_eq!(parse_timestamp(""), 0);
}

#[test]
fn whisper_items_become_segments() {
    let items = vec![
        WhisperItem { from: "00:00:01,000".into(), to: "00:00:02,500".into(), text: "  hi ".into() },
        WhisperItem { from: "00:00:03,000".into(), to: "00:00:04,000".into(), text: "there".into() },
    ];
    let segs = whisper_segments(&items);
    assert_eq!(segs.len(), 2);
    assert_eq!((segs[0].start, segs[0].end, segs[0].text.as_str()), (1_000_000, 2_500_000, "hi"));
    assert_eq!((segs[1].start, segs[1].end, segs[1].text.as_str()), (3_000_000, 4_000_000, "there"));
}

#[test]
fn whisper_command_line() {
    let a = whisper_args("m.bin", "a.wav", "/out", "", 4, None);
    assert_eq!(
        a,
        strings(&[
            "-m", "m.bin", "-f", "a.wav", "-oj", "-of", "/out/output", "-bs", "5", "-t", "4",
            "--max-len", "60", "--temperature", "0", "--print-progress", "-l", "auto",
        ])
    );
    let b = whisper_args("m.bin", "a.wav", "/out", "zh", 12, Some("vad.bin".into()));
    let n = b.len();
    assert_eq!(&b[n - 4..], &strings(&["--vad", "vad.bin", "-l", "zh"])[..]);
    assert_eq!(b[10], "12");
    let c = whisper_args("m", "a", "o", "auto", 1, None);
    assert_eq!(c.last().unwrap(), "auto");
}

#[test]
fn whisper_progress_lines() {
    assert_eq!(whisper_progress("whisper_print_progress_callback: progress =  42%"), Some(42_000_000));
    assert_eq!(whisper_progress("progress = 7.5%%"), Some(7_500_000));
    assert_eq!(whisper_progress("no progress here"), None);
    assert_eq!(whisper_progress("progress = abc%"), None);
}

#[test]
fn exit_error_keeps_explaining_lines() {
    // "ERROR" is found only through its lowercase form.
    let e = exit_error(Some(1), &strings(&["Loading model", "ERROR: bad model"]));
    assert_eq!(
        message(e),
        "whisper exited with code: Some(1)\nwhisper stderr:\nERROR: bad model"
    );
}

#[test]
fn exit_error_falls_back_to_last_lines() {
    let lines = strings(&["a", "b", "c", "d", "e", "f", "g"]);
    let e = exit_error(Some(-9), &lines);
    assert_eq!(
        message(e),
        "whisper exited with code: Some(-9)\nwhisper stderr (last 5 lines):\nc\nd\ne\nf\ng"
    );
    assert_eq!(message(exit_error(None, &vec![])), "whisper exited with code: None");
}

#[test]
fn exit_error_keeps_at_most_ten_lines() {
    let lines: Vec<String> = (0..12).map(|i| format!("failed {}", i)).collect();
    let m = message(exit_error(Some(2), &lines));
    assert!(m.ends_with("failed 9"));
    assert_eq!(m.matches("failed").count(), 10);
}

#[test]
fn disconnect_messages() {
    assert_eq!(
        message(disconnected_error(&vec![])),
        "whisper process disconnected prematurely. Possible OOM or crash.No stderr available."
    );
    assert_eq!(
        message(disconnected_error(&strings(&["x", "y"]))),
        "whisper process disconnected prematurely. Possible OOM or crash.\nwhisper stderr (last 10 lines):\nx\ny"
    );
}

#[test]
fn missing_output_messages() {
    let e = missing_output_error("/o/output.json", &Some(strings(&["a.wav", "b.txt"])), &vec![]);
    assert_eq!(
        message(e),
        "whisper did not produce output.json at /o/output.json.\nFiles in output dir: [a.wav, b.txt]\nPossible causes: invalid audio format, corrupted audio, or whisper crash."
    );
    let e = missing_output_error("/o/output.json", &None, &strings(&["boom"]));
    assert!(matches!(e, AutoSubError::ParseFailed(_)));
    assert_eq!(
        message(e),
        "whisper did not produce output.json at /o/output.json.\nFiles in output dir: [Could not read directory]\nPossible causes: invalid audio format, corrupted audio, or whisper crash.\nwhisper stderr:\nboom"
    );
}

#[test]
fn json_completeness() {
    assert!(check_json_complete("  {\"transcription\": []}\n").is_ok());
    let e = check_json_complete("{\"transcription\": [").unwrap_err();
    assert_eq!(
        e,
        AutoSubError::ParseFailed(
            "Whisper output JSON is incomplete or corrupt (missing braces). The process may have been interrupted."
                .into()
        )
    );
    assert!(check_json_complete("   ").is_err());
}

#[test]
fn audio_checks() {
    assert_eq!(
        message(check_audio("/t/a.wav", &AudioFile::Missing).unwrap_err()),
        "Audio file not found at /t/a.wav. FFmpeg extraction may have failed."
    );
    assert_eq!(
        message(check_audio("/t/a.wav", &AudioFile::Unreadable("denied".into())).unwrap_err()),
        "Failed to read audio file metadata: denied"
    );
    assert_eq!(
        message(check_audio("/t/a.wav", &AudioFile::Size(0)).unwrap_err()),
        "Audio file is empty. Source video may have no audio or FFmpeg extraction failed."
    );
    assert_eq!(
        message(check_audio("/t/a.wav", &AudioFile::Size(10)).unwrap_err()),
        "Audio file is too small (10 bytes) - likely invalid or corrupted."
    );
    assert!(check_audio("/t/a.wav", &AudioFile::Size(44)).is_ok());
}

#[test]
fn ffmpeg_command_lines() {
    assert_eq!(
        ffmpeg_args("in.mp4", "out.wav"),
        strings(&[
            "-y", "-i", "in.mp4", "-vn", "-acodec", "pcm_s16le", "-ac", "1", "-ar", "16000", "-f",
            "wav", "out.wav", "-progress", "pipe:2",
        ])
    );
    assert_eq!(
        ffprobe_args("v.mp4"),
        strings(&["-v", "error", "-show_entries", "format=duration", "-of", "csv=p=0", "v.mp4"])
    );
}

#[test]
fn ffprobe_next_to_ffmpeg() {
    assert_eq!(ffprobe_beside("/app/bin/ffmpeg-x86_64"), "/app/bin/ffprobe-x86_64");
    assert_eq!(ffprobe_beside("/opt/ffmpeg/ffmpeg"), "/opt/ffprobe/ffprobe");
    assert_eq!(ffprobe_beside("/usr/bin/avconv"), "/usr/bin/avconv");
    assert_eq!(ffprobe_path("/opt/ffmpeg", true), "/opt/ffprobe");
    assert_eq!(ffprobe_path("/opt/ffmpeg", false), "ffprobe");
}

#[test]
fn ffmpeg_progress_lines() {
    assert_eq!(out_time("out_time_ms=1500000"), Some(1_500_000));
    assert_eq!(out_time("out_time_ms= 42 "), Some(42));
    assert_eq!(out_time("out_time_ms=-5"), Some(-5));
    assert_eq!(out_time("out_time_ms=N/A"), None);
    assert_eq!(out_time("frame=10"), None);
    assert_eq!(progress_percent(5_000_000, 10_000_000), 50_000_000);
    assert_eq!(progress_percent(20_000_000, 10_000_000), 100_000_000);
    assert_eq!(progress_percent(1, 3), 33_333_333);
    assert_eq!(progress_percent(-1, 3), -33_333_334);
    assert_eq!(progress_percent(5, 0), 0);
}

#[test]
fn ffmpeg_failures() {
    assert_eq!(
        check_inputs("/x/ffmpeg", false, "v.mp4", true).unwrap_err(),
        AutoSubError::SidecarNotFound("ffmpeg not found at /x/ffmpeg. Please check your installation.".into())
    );
    assert_eq!(
        check_inputs("/x/ffmpeg", true, "v.mp4", false).unwrap_err(),
        AutoSubError::AudioExtract("Input file not found: v.mp4".into())
    );
    assert!(check_inputs("/x/ffmpeg", true, "v.mp4", true).is_ok());
    assert!(exit_status(Some(0)).is_ok());
    assert_eq!(
        exit_status(Some(1)).unwrap_err(),
        AutoSubError::AudioExtract("ffmpeg exited with code: Some(1)".into())
    );
    assert_eq!(
        exit_status(None).unwrap_err(),
        AutoSubError::AudioExtract("ffmpeg exited with code: None".into())
    );
}

#[test]
fn ffprobe_durations() {
    assert_eq!(parse_duration("12.345678\n"), Ok(12_345_678));
    assert_eq!(parse_duration("3"), Ok(3_000_000));
    assert_eq!(
        parse_duration("  \n").unwrap_err(),
        AutoSubError::AudioExtract("Failed to parse duration: cannot parse float from empty string".into())
    );
    assert_eq!(
        parse_duration("N/A").unwrap_err(),
        AutoSubError::AudioExtract("Failed to parse duration: invalid float literal".into())
    );
}

#[test]
fn whisper_json_file_location() {
    assert_eq!(autosub::whisper::output_json_path("/tmp/job"), "/tmp/job/output.json");
}

#[test]
fn ffprobe_durations_in_every_float_form() {
    assert_eq!(parse_duration("1e3"), Ok(1_000_000_000));
    assert_eq!(parse_duration("1.5E-1"), Ok(150_000));
    assert_eq!(parse_duration("+.5"), Ok(500_000));
    assert_eq!(parse_duration("5."), Ok(5_000_000));
    assert_eq!(parse_duration("2.5e+2\n"), Ok(250_000_000));
    assert_eq!(parse_duration("1e-7"), Ok(0));
    assert_eq!(parse_duration("inf"), Ok(i64::MAX));
    assert_eq!(parse_duration("-Infinity"), Ok(i64::MIN));
    assert_eq!(parse_duration("NaN"), Ok(0));
    assert_eq!(parse_duration("1e400"), Ok(i64::MAX));
    assert_eq!(parse_duration("123456789e-3"), Ok(123_456_789_000));
    for bad in [".", "1e", "e5", "1e+", "--1", "1.2.3", "infinit", "0x10"] {
        assert_eq!(
            parse_duration(bad).unwrap_err(),
            AutoSubError::AudioExtract("Failed to parse duration: invalid float literal".into()),
            "{}",
            bad
        );
        assert!(bad.parse::<f32>().is_err());
    }
}

#[test]
fn whisper_numbers_in_float_forms() {
    assert_eq!(parse_timestamp("00:00:1e1"), 10_000_000);
    assert_eq!(whisper_progress("progress = 5e1%"), Some(50_000_000));
    assert_eq!(parse_timestamp("inf:00:00"), 1 << 60);
}

#[test]
fn whisper_exit_codes() {
    assert!(whisper_exit(Some(0), &vec![]).is_ok());
    assert_eq!(
        message(whisper_exit(Some(3), &strings(&["fatal error"])).unwrap_err()),
        "whisper exited with code: Some(3)\nwhisper stderr:\nfatal error"
    );
    assert!(whisper_exit(None, &vec![]).is_err());
}

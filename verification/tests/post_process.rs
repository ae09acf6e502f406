use autosub::post_process::{process, MIN_DURATION};
use autosub::subtitle::Segment;

/// Seconds to microseconds.
fn us(s: f64) -> i64 {
    (s * 1_000_000.0).round() as i64
}

fn seg(start: f64, end: f64, text: &str) -> Segment {
    Segment { start: us(start), end: us(end), text: text.into() }
}

#[test]
fn test_merge_gap() {
    let segs = vec![seg(0.0, 1.0, "Hello"), seg(1.2, 2.5, "world")];
    let result = process(segs);
    assert_eq!(result.len(), 1);
    assert!(result[0].text.contains("Hello"));
    assert!(result[0].text.contains("world"));
}

#[test]
fn test_speaker_pause() {
    let segs = vec![seg(0.0, 1.0, "Speaker one."), seg(3.0, 4.0, "Speaker two.")];
    let result = process(segs);
    assert_eq!(result.len(), 2);
}

#[test]
fn test_cjk_merge() {
    let segs = vec![seg(0.0, 1.0, "你好"), seg(1.2, 2.5, "世界")];
    let result = process(segs);
    assert_eq!(result.len(), 1);
    assert_eq!(result[0].text, "你好世界");
}

#[test]
fn test_min_duration() {
    let segs = vec![seg(0.0, 0.5, "Short")];
    let result = process(segs);
    assert!(result[0].duration() >= MIN_DURATION as i128);
}

#[test]
fn test_overlap_fix() {
    let segs = vec![seg(0.0, 3.0, "First sentence."), seg(2.5, 5.0, "Second sentence.")];
    let result = process(segs);
    assert!(result[0].end <= result[1].start);
}

#[test]
fn test_timestamp_rounding() {
    let segs = vec![seg(1.123456, 2.789012, "Test rounding.")];
    let result = process(segs);
    assert_eq!(result[0].start, us(1.12));
    assert_eq!(result[0].end, us(2.79));
}

#[test]
fn process_empty_input_gives_empty_output() {
    assert!(process(vec![]).is_empty());
}

#[test]
fn process_merges_with_space_and_exact_times() {
    let result = process(vec![seg(0.0, 1.0, " Hello "), seg(1.2, 2.5, "world ")]);
    assert_eq!(result.len(), 1);
    assert_eq!(result[0].text, "Hello world");
    assert_eq!(result[0].start, 0);
    assert_eq!(result[0].end, us(2.5));
}

#[test]
fn process_keeps_finished_sentence_apart_after_long_gap() {
    // Gap of 1 s: merged only when the first sentence continues.
    let apart = process(vec![seg(0.0, 1.5, "Done."), seg(2.5, 4.0, "Next")]);
    assert_eq!(apart.len(), 2);
    let joined = process(vec![seg(0.0, 1.5, "and so"), seg(2.5, 4.0, "on")]);
    assert_eq!(joined.len(), 1);
    assert_eq!(joined[0].text, "and so on");
}

#[test]
fn process_does_not_merge_beyond_max_duration() {
    let result = process(vec![seg(0.0, 5.0, "one"), seg(5.1, 9.0, "two")]);
    assert_eq!(result.len(), 2);
}

#[test]
fn process_splits_fast_text_at_sentence_end() {
    let result = process(vec![seg(0.0, 1.0, "Hello there. General Kenobi!")]);
    assert_eq!(result.len(), 2);
    assert_eq!(result[0].text, "Hello there.");
    assert_eq!(result[1].text, "General Kenobi!");
    assert_eq!(result[0].start, 0);
    assert_eq!(result[0].end, 510_000);
    assert_eq!(result[1].start, 510_000);
    assert_eq!(result[1].end, 1_200_000);
}

#[test]
fn process_splits_cjk_text_at_sentence_end() {
    let text = format!("{}。{}", "你好".repeat(5), "你好".repeat(7));
    let result = process(vec![seg(0.0, 1.0, &text)]);
    assert_eq!(result.len(), 2);
    assert_eq!(result[0].text, format!("{}。", "你好".repeat(5)));
    assert_eq!(result[1].text, "你好".repeat(7));
    assert_eq!(result[0].end, 530_000);
}

#[test]
fn process_splits_cjk_text_at_middle_grapheme() {
    let text = "你好".repeat(13);
    let result = process(vec![seg(0.0, 1.0, &text)]);
    assert_eq!(result.len(), 2);
    let chars: Vec<char> = text.chars().collect();
    let first: String = chars[..13].iter().collect();
    let second: String = chars[13..].iter().collect();
    assert_eq!(result[0].text, first);
    assert_eq!(result[1].text, second);
    assert_eq!(result[0].end, 600_000);
    assert_eq!(result[1].start, 600_000);
}

#[test]
fn process_breaks_long_line_in_two() {
    let text = format!("{} {}", "a".repeat(30), "b".repeat(29));
    let result = process(vec![seg(0.0, 10.0, &text)]);
    assert_eq!(result.len(), 1);
    assert_eq!(result[0].text, format!("{}\n{}", "a".repeat(30), "b".repeat(29)));
}

#[test]
fn process_cuts_very_long_text_to_two_lines() {
    let text = format!(" {} ", "x".repeat(90));
    let result = process(vec![seg(0.0, 8.0, &text)]);
    assert_eq!(result[0].text, format!("{}\n{}", "x".repeat(42), "x".repeat(42)));
}

#[test]
fn process_breaks_after_42_when_a_line_would_be_too_long() {
    let text = format!("{} {}", "a".repeat(63), "b".repeat(20));
    let result = process(vec![seg(0.0, 10.0, &text)]);
    assert_eq!(result.len(), 1);
    assert_eq!(result[0].text, format!("{}\n{} {}", "a".repeat(42), "a".repeat(21), "b".repeat(20)));
    for line in result[0].text.lines() {
        assert!(line.chars().count() <= 42);
    }
}

#[test]
fn process_caps_duration_at_eight_seconds() {
    let result = process(vec![seg(0.0, 10.0, "Ten seconds of speech.")]);
    assert_eq!(result.len(), 1);
    assert_eq!(result[0].start, 0);
    assert_eq!(result[0].end, 8_000_000);
    let kept = process(vec![seg(1.0, 6.0, "Five seconds.")]);
    assert_eq!((kept[0].start, kept[0].end), (1_000_000, 6_000_000));
}

#[test]
fn process_never_ends_before_start() {
    let result = process(vec![seg(5.0, 2.0, "Backwards."), seg(9.0, 9.0, "Empty span here, long text.")]);
    for s in &result {
        assert!(s.start <= s.end);
    }
}

#[test]
fn process_pulls_overlapping_end_back() {
    let result = process(vec![seg(0.0, 3.0, "First sentence."), seg(2.5, 5.0, "Second sentence.")]);
    assert_eq!(result.len(), 2);
    assert_eq!(result[0].end, us(2.45));
}

#[test]
fn process_rounds_negative_times_away_from_zero() {
    let result = process(vec![seg(-1.234567, 0.0, "Before zero.")]);
    assert_eq!(result[0].start, -1_230_000);
    assert_eq!(result[0].end, 0);
}

#[test]
fn process_outputs_hundredths_of_seconds() {
    let result = process(vec![
        seg(0.013, 1.777, "One."),
        seg(3.333, 4.999, "Two."),
        seg(7.101, 9.555, "Three."),
    ]);
    for s in &result {
        assert_eq!(s.start % 10_000, 0);
        assert_eq!(s.end % 10_000, 0);
    }
}

#[test]
fn process_keeps_each_speaker_pause() {
    let result = process(vec![
        seg(0.0, 1.0, "a"),
        seg(3.0, 4.0, "b"),
        seg(6.0, 7.0, "c"),
    ]);
    assert!(result.len() >= 3);
}

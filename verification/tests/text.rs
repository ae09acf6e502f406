use autosub::text::{ends_with_sentence, is_cjk, is_cjk_text, is_whitespace, trimmed};

#[test]
fn cjk_characters() {
    assert!(is_cjk('你'));
    assert!(is_cjk('。'));
    assert!(is_cjk('！'));
    assert!(is_cjk('\u{3400}'));
    assert!(!is_cjk('a'));
    assert!(!is_cjk('é'));
    assert!(!is_cjk('\u{3040}'));
}

#[test]
fn cjk_text_needs_more_than_thirty_percent() {
    assert!(is_cjk_text("你好世界"));
    assert!(!is_cjk_text(""));
    assert!(!is_cjk_text("hello world"));
    // 3 of 10 characters: exactly 30 %, not more.
    assert!(!is_cjk_text("你好世abcdefg"));
    // 4 of 10 characters.
    assert!(is_cjk_text("你好世界abcdef"));
}

#[test]
fn sentence_ends() {
    assert!(ends_with_sentence("Hello world.  "));
    assert!(ends_with_sentence("你好。"));
    assert!(ends_with_sentence("Really?"));
    assert!(ends_with_sentence("好！\n"));
    assert!(!ends_with_sentence("Hello world"));
    assert!(!ends_with_sentence("   "));
    assert!(!ends_with_sentence("a,"));
}

#[test]
fn trimming_follows_unicode_white_space() {
    assert_eq!(trimmed("  a b \t\n"), "a b");
    assert_eq!(trimmed("\u{3000}你好\u{00A0}"), "你好");
    assert_eq!(trimmed(""), "");
    assert!(is_whitespace('\u{2028}'));
    assert!(!is_whitespace('\u{200B}'));
    for c in ['\u{85}', '\u{1680}', '\u{2000}', '\u{205F}', 'x', '0'] {
        assert_eq!(is_whitespace(c), c.is_whitespace());
    }
}

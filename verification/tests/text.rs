use rotation_copilot::text::{
    chars_of, contains, has_prefix, join_texts, same_text, split_lines, strip_prefix, text_before,
    text_of, text_without, trimmed, whitespace,
};

#[test]
fn joined_with_a_separator() {
    let texts = vec!["a".to_string(), "".to_string(), "b".to_string()];
    assert_eq!(join_texts(&texts, "\n"), "a\n\nb");
    assert_eq!(join_texts(&vec![], "\n"), "");
    assert_eq!(join_texts(&vec!["one".to_string()], ", "), "one");
}

#[test]
fn patterns_are_found() {
    assert!(contains("prompt exceeds limit of", "exceeds limit"));
    assert!(!contains("prompt exceeds the limit", "exceeds limit"));
    assert!(contains("", ""));
    assert!(!contains("a", "ab"));
    assert!(contains("aab", "ab"));
}

#[test]
fn prefixes_are_stripped() {
    assert!(has_prefix("Bearer x", "Bearer "));
    assert!(!has_prefix("bearer x", "Bearer "));
    assert_eq!(strip_prefix("data: x", "data: ").as_deref(), Some("x"));
    assert_eq!(strip_prefix("data:x", "data: "), None);
}

#[test]
fn whitespace_is_trimmed_as_std_does() {
    for text in ["  a b \n", "\u{3000}x\u{2003}", "\u{200b}x", "", " \t\r\n", "x\u{85}"] {
        assert_eq!(trimmed(text), text.trim());
    }
}

#[test]
fn whitespace_is_what_std_says() {
    for code in 0..=0x10ffffu32 {
        if let Some(c) = char::from_u32(code) {
            assert_eq!(whitespace(c), c.is_whitespace(), "{:x}", code);
        }
    }
}

#[test]
fn lines_are_split_as_std_does() {
    for text in ["", "\n", "a", "a\n", "a\r\nb", "a\rb\n\nc\r", "\r\n\r\n", "a\r\r\nb"] {
        let expected: Vec<String> = text.lines().map(str::to_owned).collect();
        assert_eq!(split_lines(&chars_of(text)), expected, "{:?}", text);
    }
}

#[test]
fn text_before_a_character() {
    assert_eq!(text_before("1.114.0-1", '-'), "1.114.0");
    assert_eq!(text_before("1.114.0", '-'), "1.114.0");
    assert_eq!(text_before("-1", '-'), "");
}

#[test]
fn text_without_a_character() {
    assert_eq!(text_without("a-b--c", '-'), "abc");
    assert_eq!(text_of(&chars_of("grüße")), "grüße");
}

#[test]
fn texts_are_compared_character_by_character() {
    let texts = ["", "a", "b", "ab", "aé", "aè", "é", "e\u{301}", "\u{10348}"];
    for a in texts {
        for b in texts {
            assert_eq!(same_text(a, b), a == b, "{:?} {:?}", a, b);
        }
    }
}

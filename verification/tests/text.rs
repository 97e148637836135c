use rag_core::text::{
    chars_of, flat_preview, is_whitespace, join_strings, lines, preview_lines, take_chars,
    trim_str,
};

#[test]
fn whitespace_agrees_with_std() {
    for u in 0..=0x10FFFFu32 {
        if let Some(c) = char::from_u32(u) {
            assert_eq!(is_whitespace(c), c.is_whitespace(), "U+{:04X}", u);
        }
    }
}

#[test]
fn trim_agrees_with_std() {
    let samples = ["", "   ", "  a b  ", "\u{2003}x\u{85}", "\tline\n", "no-space", "\u{200b}zw\u{200b}"];
    for s in samples {
        assert_eq!(trim_str(s), s.trim(), "sample {:?}", s);
    }
}

#[test]
fn chars_keep_order() {
    assert_eq!(chars_of("añb"), vec!['a', 'ñ', 'b']);
}

#[test]
fn lines_agree_with_std() {
    let samples = ["", "\n", "a", "a\n", "a\r\nb", "a\rb\n", "a\n\nb\r", "x\r\n\r\n", "\r"];
    for s in samples {
        let expected: Vec<String> = s.lines().map(|l| l.to_string()).collect();
        assert_eq!(lines(s), expected, "sample {:?}", s);
    }
}

#[test]
fn join_with_separator() {
    let parts = vec!["a".to_string(), "b".to_string(), "c".to_string()];
    assert_eq!(join_strings(&parts, ", "), "a, b, c");
    assert_eq!(join_strings(&Vec::new(), ", "), "");
    assert_eq!(join_strings(&vec!["only".to_string()], "-"), "only");
}

#[test]
fn take_chars_counts_characters() {
    assert_eq!(take_chars("héllo", 2), "hé");
    assert_eq!(take_chars("hi", 10), "hi");
}

#[test]
fn preview_of_lines() {
    let text = "one\ntwo\r\nthree\nfour\nfive";
    assert_eq!(preview_lines(text, 4, 400), "one two three four");
    assert_eq!(preview_lines(text, 4, 7), "one two");
    assert_eq!(preview_lines("", 4, 400), "");
}

#[test]
fn flat_preview_replaces_line_feeds_after_cutting() {
    assert_eq!(flat_preview("a\nb\nc", 3), "a b");
    assert_eq!(flat_preview("x\n", 10), "x ");
}

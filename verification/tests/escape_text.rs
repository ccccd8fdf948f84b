use vllm_bench::escape::push_json_escaped_str;
use vllm_bench::text::{count_words, placeholder_words, push_decimal};

fn escaped(s: &str) -> String {
    let mut buf = String::new();
    push_json_escaped_str(&mut buf, s);
    buf
}

#[test]
fn escape_plain_text_is_unchanged() {
    assert_eq!(escaped("hello world"), "hello world");
    assert_eq!(escaped(""), "");
}

#[test]
fn escape_short_forms() {
    assert_eq!(escaped("a\"b"), "a\\\"b");
    assert_eq!(escaped("a\\b"), "a\\\\b");
    assert_eq!(escaped("line\nnext"), "line\\nnext");
    assert_eq!(escaped("cr\rlf"), "cr\\rlf");
    assert_eq!(escaped("tab\there"), "tab\\there");
}

#[test]
fn escape_other_control_characters_as_unicode() {
    assert_eq!(escaped("\u{0}"), "\\u0000");
    assert_eq!(escaped("\u{1}"), "\\u0001");
    assert_eq!(escaped("\u{8}"), "\\u0008");
    assert_eq!(escaped("\u{b}"), "\\u000b");
    assert_eq!(escaped("\u{c}"), "\\u000c");
    assert_eq!(escaped("\u{1f}"), "\\u001f");
}

#[test]
fn escape_leaves_non_control_characters() {
    assert_eq!(escaped("\u{7f}"), "\u{7f}");
    assert_eq!(escaped("/"), "/");
    assert_eq!(escaped("héllo 世界 🚀"), "héllo 世界 🚀");
    assert_eq!(escaped(" "), " ");
}

#[test]
fn escape_appends_to_existing_buffer() {
    let mut buf = String::from("prefix:");
    push_json_escaped_str(&mut buf, "\"x\"");
    assert_eq!(buf, "prefix:\\\"x\\\"");
}

#[test]
fn escape_roundtrips_through_a_json_parser() {
    let samples = [
        "",
        "plain",
        "quote \" backslash \\ slash /",
        "controls \u{0}\u{1}\u{7}\u{8}\t\n\u{b}\u{c}\r\u{1f}",
        "unicode é 世界 🚀 \u{2028}",
        "\\u0041 is not an escape here",
    ];
    for s in samples {
        let literal = format!("\"{}\"", escaped(s));
        let back: String = serde_json::from_str(&literal).unwrap();
        assert_eq!(back, s);
    }
    for code in 0u32..0x80 {
        let c = char::from_u32(code).unwrap();
        let s = c.to_string();
        let literal = format!("\"{}\"", escaped(&s));
        let back: String = serde_json::from_str(&literal).unwrap();
        assert_eq!(back, s);
    }
}

#[test]
fn count_words_matches_split_whitespace() {
    let samples = [
        "",
        "   ",
        "one",
        " one",
        "one ",
        "one two  three",
        "\tone\ntwo\r\nthree\u{a0}four\u{3000}five",
        "a\u{85}b\u{1680}c\u{2000}d\u{200a}e\u{2028}f\u{2029}g\u{202f}h\u{205f}i",
        "a\u{180e}b\u{200b}c",
    ];
    for s in samples {
        assert_eq!(count_words(s), s.split_whitespace().count(), "{:?}", s);
    }
}

#[test]
fn count_words_agrees_with_std_on_every_character() {
    for code in 0u32..0x11_0000 {
        if let Some(c) = char::from_u32(code) {
            let s = format!("a{}b", c);
            assert_eq!(count_words(&s), s.split_whitespace().count(), "U+{:04X}", code);
        }
    }
}

#[test]
fn decimal_numerals() {
    for n in [0u64, 7, 10, 99, 100, 12345, u64::MAX] {
        let mut buf = String::from("x");
        push_decimal(&mut buf, n);
        assert_eq!(buf, format!("x{}", n));
    }
}

#[test]
fn placeholder_words_text() {
    assert_eq!(placeholder_words(0), "");
    assert_eq!(placeholder_words(1), "w0");
    assert_eq!(placeholder_words(3), "w0 w1 w2");
    let twelve = placeholder_words(12);
    assert_eq!(twelve, (0..12).map(|i| format!("w{i}")).collect::<Vec<_>>().join(" "));
}

#[test]
fn placeholder_words_count_as_words() {
    for n in [0usize, 1, 2, 5, 100] {
        assert_eq!(count_words(&placeholder_words(n)), n);
    }
}


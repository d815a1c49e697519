//! The text helpers agree with what std does on the same input.

use cyberbrain_light::text::{
    char_is_ws, chars_of, count_chars, decimal, ends_with, first_lines, sort_texts, starts_with, str_eq,
    text_le, trim,
};

#[test]
fn decimal_is_what_display_prints() {
    for n in [0u64, 7, 10, 99, 100, 8192, 1_000_000_007, u64::MAX] {
        assert_eq!(decimal(n), n.to_string());
    }
}

#[test]
fn trim_is_str_trim() {
    for t in ["", "   ", "a", "  a b  ", "\u{3000}x\u{a0}", "\t\r\nbody\n\n", "\u{200b}kept\u{200b}"] {
        assert_eq!(trim(t), t.trim(), "trim of {t:?}");
    }
    for c in ['\u{85}', '\u{2028}', ' ', '\t', 'a', '\u{200b}', '\u{feff}'] {
        assert_eq!(char_is_ws(c), c.is_whitespace(), "{c:?}");
    }
}

#[test]
fn first_lines_is_lines_take() {
    for (t, k) in [("a\nb\nc", 2usize), ("a\r\nb\r\n", 4), ("", 3), ("x\n\ny", 5), ("one\r", 1), ("\n", 1)] {
        let expected: Vec<String> = t.lines().take(k).map(str::to_owned).collect();
        assert_eq!(first_lines(t, k), expected, "lines of {t:?}");
    }
}

#[test]
fn prefixes_suffixes_and_equality() {
    assert!(starts_with(".hidden.md", "."));
    assert!(!starts_with("a", "ab"));
    assert!(ends_with("note.md", ".md"));
    assert!(!ends_with("md", ".md"));
    assert!(str_eq("same", "same"));
    assert!(!str_eq("same", "Same"));
    assert_eq!(count_chars("héllo"), 5);
    assert_eq!(chars_of("ab"), vec!['a', 'b']);
}

#[test]
fn texts_sort_as_strings_do() {
    let v: Vec<String> = ["zeta.md", "Alpha.md", "alpha.md", "a", "", "é.md", "b10", "b9"]
        .iter()
        .map(|s| s.to_string())
        .collect();
    let mut expected = v.clone();
    expected.sort();
    assert_eq!(sort_texts(v), expected);
    assert!(text_le("a", "ab"));
    assert!(text_le("ab", "ab"));
    assert!(!text_le("b", "ab"));
}

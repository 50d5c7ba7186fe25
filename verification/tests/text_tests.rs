use mbit::text::{
    contains_chars, decimal_string, is_whitespace, parse_decimal, str_contains, str_eq,
    str_starts_with, to_chars, trim_chars,
};

fn chars(s: &str) -> Vec<char> {
    s.chars().collect()
}

#[test]
fn whitespace_matches_std() {
    for c in ['\t', '\n', '\u{b}', '\u{c}', '\r', ' ', '\u{85}', '\u{a0}', '\u{1680}', '\u{2000}', '\u{200a}', '\u{2028}', '\u{2029}', '\u{202f}', '\u{205f}', '\u{3000}', 'a', '0', '\u{200b}', '\u{feff}', '-', '\u{7f}'] {
        assert_eq!(is_whitespace(c), c.is_whitespace(), "{:?}", c);
    }
}

#[test]
fn trim_removes_unicode_space_at_both_ends() {
    let t = trim_chars(&chars("\u{3000} \tab c\r\n"));
    assert_eq!(t, chars("ab c"));
    assert_eq!(trim_chars(&chars(" \t ")), Vec::<char>::new());
    assert_eq!(trim_chars(&chars("")), Vec::<char>::new());
    assert_eq!(trim_chars(&chars("x")), chars("x"));
}

#[test]
fn parse_decimal_follows_from_str() {
    let cases = ["42", "+7", "", "+", "-1", "65535", "65536", "007", "1 2", "++1", " 1"];
    for s in cases {
        let expected = s.parse::<u16>().ok().map(|v| v as usize);
        assert_eq!(parse_decimal(&chars(s), 65535), expected, "{:?}", s);
    }
    assert_eq!(parse_decimal(&chars("18446744073709551615"), usize::MAX), "18446744073709551615".parse::<usize>().ok());
    assert_eq!(parse_decimal(&chars("184467440737095516150"), usize::MAX), None);
}

#[test]
fn decimal_is_read_back() {
    for n in [0usize, 7, 10, 99, 100, 8080, 65535, 123456789] {
        let d = decimal_string(n);
        assert_eq!(d, n.to_string());
        assert_eq!(parse_decimal(&to_chars(&d), usize::MAX), Some(n));
    }
}

#[test]
fn string_comparisons() {
    assert!(str_eq("abc", "abc"));
    assert!(!str_eq("abc", "abd"));
    assert!(!str_eq("abc", "ab"));
    assert!(str_starts_with("--port", "--"));
    assert!(!str_starts_with("-", "--"));
    assert!(str_contains("impl-string", "string"));
    assert!(str_contains("x", ""));
    assert!(!str_contains("str", "string"));
    assert!(contains_chars(&chars("aabab"), &chars("bab")));
    assert!(!contains_chars(&chars("aab"), &chars("ba")));
}

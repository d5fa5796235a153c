use chromium_bridge::text::{
    decimal_string, parse_usize, push_signed_decimal, str_contains, str_ends_with, str_is_blank,
    str_starts_with,
};

#[test]
fn parse_usize_matches_std() {
    for s in ["0", "42", "+7", "", "+", "-1", "1_000", " 1", "007", "18446744073709551615", "18446744073709551616", "٣"] {
        assert_eq!(parse_usize(s), s.parse::<usize>().ok(), "input {s:?}");
    }
}

#[test]
fn decimal_rendering() {
    assert_eq!(decimal_string(0), "0");
    assert_eq!(decimal_string(u64::MAX), u64::MAX.to_string());
    let mut s = String::new();
    push_signed_decimal(&mut s, i64::MIN);
    assert_eq!(s, i64::MIN.to_string());
}

#[test]
fn searching() {
    assert!(str_contains("abc", ""));
    assert!(str_contains("abcabd", "abd"));
    assert!(!str_contains("ab", "abc"));
    assert!(str_starts_with("text/html", "text/"));
    assert!(str_ends_with("a.json", ".json"));
    assert!(!str_ends_with("json", ".json"));
    assert!(str_is_blank(" \n\u{2009}"));
    assert!(!str_is_blank(" x "));
}

use bubble_bridge::text::{contains, to_ascii_upper, u64_to_decimal, parse_u64, position_of, str_eq_string};

#[test]
fn contains_finds_pattern_anywhere() {
    assert!(contains("Error: Subscription not active!", "Subscription not active!"));
    assert!(contains("abc", ""));
    assert!(!contains("abc", "abcd"));
    assert!(!contains("iPhone O", "iPhone OS"));
}

#[test]
fn ascii_upper_leaves_other_characters() {
    assert_eq!(to_ascii_upper("ab-9f"), "AB-9F");
    assert_eq!(to_ascii_upper("é z"), "é Z");
}

#[test]
fn decimal_rendering() {
    assert_eq!(u64_to_decimal(0), "0");
    assert_eq!(u64_to_decimal(1234), "1234");
    assert_eq!(u64_to_decimal(u64::MAX), "18446744073709551615");
}

#[test]
fn parse_u64_like_std() {
    assert_eq!(parse_u64("42"), Some(42));
    assert_eq!(parse_u64("+42"), Some(42));
    assert_eq!(parse_u64("0007"), Some(7));
    assert_eq!(parse_u64("18446744073709551615"), Some(u64::MAX));
    assert_eq!(parse_u64("18446744073709551616"), None);
    assert_eq!(parse_u64(""), None);
    assert_eq!(parse_u64("+"), None);
    assert_eq!(parse_u64("-1"), None);
    assert_eq!(parse_u64("12a"), None);
    assert_eq!(parse_u64(" 1"), None);
    for s in ["42", "+42", "0007", "18446744073709551616", "", "+", "-1", "12a", "99999999999999999999"] {
        assert_eq!(parse_u64(s), s.parse::<u64>().ok(), "input {s:?}");
    }
}

#[test]
fn decimal_parses_back() {
    for n in [0u64, 9, 10, 65535, 4_000_000_000, u64::MAX] {
        assert_eq!(parse_u64(&u64_to_decimal(n)), Some(n));
    }
}

#[test]
fn position_of_first_match() {
    let keys = vec!["a".to_string(), "b".to_string(), "a".to_string()];
    assert_eq!(position_of(&keys, "a"), Some(0));
    assert_eq!(position_of(&keys, "b"), Some(1));
    assert_eq!(position_of(&keys, "c"), None);
}

#[test]
fn string_equality() {
    assert!(str_eq_string(&"x".to_string(), &"x".to_string()));
    assert!(!str_eq_string(&"x".to_string(), &"xy".to_string()));
}

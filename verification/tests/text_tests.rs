use ratatosk::text::{
    bool_to_string, contains_str, crop_str, i64_to_string, is_numeric, is_whitespace,
    likely_json_object, parse_u64, u64_to_string,
};

#[test]
fn likely_json_object_accepts_leading_whitespace() {
    assert!(likely_json_object("{\"a\":1}"));
    assert!(likely_json_object(" \t\r\n{"));
    assert!(!likely_json_object(""));
    assert!(!likely_json_object("   "));
    assert!(!likely_json_object("route=/a {"));
    assert!(!likely_json_object("[1,2]"));
    // a non-breaking space is not JSON white space
    assert!(!likely_json_object("\u{a0}{"));
}

#[test]
fn crop_str_cuts_columns() {
    assert_eq!(crop_str("hello world", 0, 20), "hello world");
    assert_eq!(crop_str("hello world", 0, 5), "hello");
    assert_eq!(crop_str("hello world", 6, 5), "world");
    assert_eq!(crop_str("hello world", 6, 100), "world");
    assert_eq!(crop_str("hello", 5, 3), "");
    assert_eq!(crop_str("hello", 9, 3), "");
    assert_eq!(crop_str("héllo wörld", 1, 4), "éllo");
    assert_eq!(crop_str("abc", 1, 0), "");
}

#[test]
fn crop_of_a_fitting_line_is_the_line() {
    for s in ["", "a", "route=/api latency=5", "ünïcödé"] {
        assert_eq!(crop_str(s, 0, s.chars().count()), s);
        assert!(crop_str(s, 1, 2).chars().count() <= 2);
    }
}

#[test]
fn parse_u64_matches_std() {
    for s in [
        "0", "42", "+42", "", "+", "-", "-1", "12a", " 1", "18446744073709551615",
        "18446744073709551616", "000123", "99999999999999999999", "١٢",
    ] {
        assert_eq!(parse_u64(s), s.parse::<u64>().ok(), "input {:?}", s);
    }
}

#[test]
fn decimal_round_trips() {
    for n in [0u64, 7, 10, 1234567890, u64::MAX] {
        assert_eq!(u64_to_string(n), n.to_string());
        assert_eq!(parse_u64(&u64_to_string(n)), Some(n));
    }
    for n in [0i64, -1, 42, i64::MIN, i64::MAX] {
        assert_eq!(i64_to_string(n), n.to_string());
    }
    assert_eq!(bool_to_string(true), "true");
    assert_eq!(bool_to_string(false), "false");
}

#[test]
fn character_classes() {
    for c in [' ', '\t', '\n', '\u{a0}', '\u{3000}', '\u{2028}', 'a', '=', '0', '\u{200b}'] {
        assert_eq!(is_whitespace(c), c.is_whitespace(), "char {:?}", c);
    }
    for c in ['0', '9', 'a', '٣', '½', 'x', '.'] {
        assert_eq!(is_numeric(c), c.is_numeric(), "char {:?}", c);
    }
}

#[test]
fn substring_search() {
    assert!(contains_str("an ERROR here", "ERROR"));
    assert!(!contains_str("an error here", "ERROR"));
    assert!(contains_str("abc", ""));
    assert!(!contains_str("", "a"));
}

use opencode_core::text::{
    parse_u32, sat_add_usize, split_whitespace_tokens, str_eq, str_starts_with, trim_str,
    usize_to_string,
};

#[test]
fn test_str_eq_and_starts_with() {
    assert!(str_eq("abc", "abc"));
    assert!(!str_eq("abc", "abd"));
    assert!(!str_eq("abc", "ab"));
    assert!(str_eq("", ""));

    assert!(str_starts_with("agent/alice", "agent/"));
    assert!(!str_starts_with("agent", "agent/"));
    assert!(str_starts_with("anything", ""));
}

#[test]
fn test_split_whitespace_tokens() {
    assert_eq!(
        split_whitespace_tokens("  a  bb\tccc \n"),
        vec!["a".to_string(), "bb".to_string(), "ccc".to_string()]
    );
    assert_eq!(split_whitespace_tokens(""), Vec::<String>::new());
    assert_eq!(split_whitespace_tokens(" \t "), Vec::<String>::new());
}

#[test]
fn test_trim_str() {
    assert_eq!(trim_str("  hello \t"), "hello");
    assert_eq!(trim_str("hello"), "hello");
    assert_eq!(trim_str("   "), "");
    assert_eq!(trim_str(""), "");
}

#[test]
fn test_usize_to_string() {
    assert_eq!(usize_to_string(0), "0");
    assert_eq!(usize_to_string(7), "7");
    assert_eq!(usize_to_string(10), "10");
    assert_eq!(usize_to_string(90210), "90210");
}

#[test]
fn test_parse_u32() {
    assert_eq!(parse_u32("0"), Some(0));
    assert_eq!(parse_u32("42"), Some(42));
    assert_eq!(parse_u32("+42"), Some(42));
    assert_eq!(parse_u32("4294967295"), Some(u32::MAX));
    assert_eq!(parse_u32("4294967296"), None);
    assert_eq!(parse_u32(""), None);
    assert_eq!(parse_u32("+"), None);
    assert_eq!(parse_u32("12a"), None);
    assert_eq!(parse_u32("-1"), None);
}

#[test]
fn test_decimal_round_trip() {
    for n in [0usize, 1, 9, 10, 99, 100, 4096, 123456] {
        let s = usize_to_string(n);
        assert_eq!(parse_u32(&s), Some(n as u32));
    }
}

#[test]
fn test_sat_add_usize() {
    assert_eq!(sat_add_usize(2, 3), 5);
    assert_eq!(sat_add_usize(usize::MAX, 1), usize::MAX);
    assert_eq!(sat_add_usize(usize::MAX - 1, 1), usize::MAX);
}

#[test]
fn test_extract_chunk() {
}

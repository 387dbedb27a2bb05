use secure_send::text::{owned, parse_i64, str_eq};

#[test]
fn signed_numbers_parse_like_std() {
    for s in ["0", "-0", "+7", "-9223372036854775808", "9223372036854775807", "9223372036854775808", "", "-", "+", "1a", " 1", "007"] {
        assert_eq!(parse_i64(s), s.parse::<i64>().ok(), "input {s:?}");
    }
}

#[test]
fn string_helpers() {
    assert_eq!(owned("héllo"), "héllo");
    assert!(str_eq("abc", "abc"));
    assert!(!str_eq("abc", "abd"));
}

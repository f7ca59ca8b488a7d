use bdtv_hub::text::{decimal_i64, decimal_u64, decimal_usize, str_eq, str_le};

#[test]
fn decimal_numerals() {
    assert_eq!(decimal_u64(0), "0");
    assert_eq!(decimal_u64(7), "7");
    assert_eq!(decimal_u64(10), "10");
    assert_eq!(decimal_u64(1234567890), "1234567890");
    assert_eq!(decimal_u64(u64::MAX), "18446744073709551615");
    assert_eq!(decimal_usize(42), "42");
    assert_eq!(decimal_i64(-1), "-1");
    assert_eq!(decimal_i64(i64::MAX), "9223372036854775807");
    assert_eq!(decimal_i64(i64::MIN), i64::MIN.to_string());
}

#[test]
fn code_point_order() {
    assert!(str_le("", ""));
    assert!(str_le("", "a"));
    assert!(!str_le("a", ""));
    assert!(str_le("abc", "abd"));
    assert!(str_le("ab", "abc"));
    assert!(!str_le("abc", "ab"));
    assert!(str_le("Z", "a"));
    assert!(str_le("z", "é"));
    for (a, b) in [("lobby", "survival"), ("b", "a"), ("same", "same"), ("é", "ê")] {
        assert_eq!(str_le(a, b), a <= b);
    }
}

#[test]
fn string_equality() {
    assert!(str_eq("lobby", "lobby"));
    assert!(!str_eq("lobby", "Lobby"));
    assert!(!str_eq("lobby", "lobby "));
}

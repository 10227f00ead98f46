use egui_reflect::numeric::{i64_to_string, parse_i64, parse_u64, u64_to_string};

#[test]
fn parses_plain_decimal() {
    assert_eq!(parse_i64("42"), Some(42));
    assert_eq!(parse_i64("0"), Some(0));
    assert_eq!(parse_u64("42"), Some(42));
}

#[test]
fn parses_signs() {
    assert_eq!(parse_i64("-7"), Some(-7));
    assert_eq!(parse_i64("+5"), Some(5));
    assert_eq!(parse_u64("+5"), Some(5));
    assert_eq!(parse_u64("-1"), None);
}

#[test]
fn rejects_non_numerals() {
    assert_eq!(parse_i64(""), None);
    assert_eq!(parse_i64("abc"), None);
    assert_eq!(parse_i64("-"), None);
    assert_eq!(parse_i64("+"), None);
    assert_eq!(parse_i64("12x"), None);
    assert_eq!(parse_i64(" 12"), None);
    assert_eq!(parse_i64("1.5"), None);
    assert_eq!(parse_u64("x"), None);
}

#[test]
fn parses_extreme_values() {
    assert_eq!(parse_i64("9223372036854775807"), Some(i64::MAX));
    assert_eq!(parse_i64("9223372036854775808"), None);
    assert_eq!(parse_i64("-9223372036854775808"), Some(i64::MIN));
    assert_eq!(parse_i64("-9223372036854775809"), None);
    assert_eq!(parse_u64("18446744073709551615"), Some(u64::MAX));
    assert_eq!(parse_u64("18446744073709551616"), None);
}

#[test]
fn renders_canonical_decimals() {
    assert_eq!(i64_to_string(0).as_str(), "0");
    assert_eq!(i64_to_string(12345).as_str(), "12345");
    assert_eq!(i64_to_string(-42).as_str(), "-42");
    assert_eq!(i64_to_string(i64::MIN).as_str(), "-9223372036854775808");
    assert_eq!(i64_to_string(i64::MAX).as_str(), "9223372036854775807");
    assert_eq!(u64_to_string(0).as_str(), "0");
    assert_eq!(u64_to_string(u64::MAX).as_str(), "18446744073709551615");
}

#[test]
fn round_trips_canonical_text() {
    for v in [0i64, 1, -1, 99, -100, 4096, i64::MIN, i64::MAX] {
        assert_eq!(parse_i64(i64_to_string(v).as_str()), Some(v));
    }
}

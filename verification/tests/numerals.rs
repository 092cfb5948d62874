use workspace_switcher::numerals::{i64_to_string, parse_u32, u32_to_string, u64_to_string};

#[test]
fn renders_unsigned_decimals() {
    assert_eq!(u32_to_string(0), "0");
    assert_eq!(u32_to_string(7), "7");
    assert_eq!(u32_to_string(42), "42");
    assert_eq!(u32_to_string(u32::MAX), "4294967295");
    assert_eq!(u64_to_string(18446744073709551615), "18446744073709551615");
}

#[test]
fn renders_signed_decimals() {
    assert_eq!(i64_to_string(0), "0");
    assert_eq!(i64_to_string(1234), "1234");
    assert_eq!(i64_to_string(-5), "-5");
    assert_eq!(i64_to_string(i64::MIN), "-9223372036854775808");
    assert_eq!(i64_to_string(i64::MAX), "9223372036854775807");
}

#[test]
fn parses_digit_strings() {
    assert_eq!(parse_u32("0"), Some(0));
    assert_eq!(parse_u32("123"), Some(123));
    assert_eq!(parse_u32("007"), Some(7));
    assert_eq!(parse_u32("4294967295"), Some(u32::MAX));
}

#[test]
fn rejects_non_numerals() {
    assert_eq!(parse_u32(""), None);
    assert_eq!(parse_u32("x"), None);
    assert_eq!(parse_u32("1x"), None);
    assert_eq!(parse_u32("-3"), None);
    assert_eq!(parse_u32(" 3"), None);
    assert_eq!(parse_u32("4294967296"), None);
    assert_eq!(parse_u32("999999999999"), None);
}

#[test]
fn round_trips_through_text() {
    for n in [0u32, 1, 9, 10, 99, 100, 65535, u32::MAX] {
        assert_eq!(parse_u32(&u32_to_string(n)), Some(n));
    }
}

use miniredis::numeric::{parse_i64, parse_u64, parse_usize, i64_string, u64_string, usize_string};

#[test]
fn parse_i64_plain() {
    assert_eq!(parse_i64("0"), Some(0));
    assert_eq!(parse_i64("42"), Some(42));
    assert_eq!(parse_i64("-42"), Some(-42));
    assert_eq!(parse_i64("+42"), Some(42));
}

#[test]
fn parse_i64_bounds() {
    assert_eq!(parse_i64("9223372036854775807"), Some(i64::MAX));
    assert_eq!(parse_i64("-9223372036854775808"), Some(i64::MIN));
    assert_eq!(parse_i64("9223372036854775808"), None);
    assert_eq!(parse_i64("-9223372036854775809"), None);
    assert_eq!(parse_i64("99999999999999999999999999"), None);
}

#[test]
fn parse_i64_leading_zeros() {
    assert_eq!(parse_i64("007"), Some(7));
    assert_eq!(parse_i64("-000000000000000000000000005"), Some(-5));
    assert_eq!(parse_i64("00000000000000000000009223372036854775807"), Some(i64::MAX));
}

#[test]
fn parse_i64_rejects_garbage() {
    assert_eq!(parse_i64(""), None);
    assert_eq!(parse_i64("-"), None);
    assert_eq!(parse_i64("+"), None);
    assert_eq!(parse_i64("abc"), None);
    assert_eq!(parse_i64("12a"), None);
    assert_eq!(parse_i64(" 12"), None);
    assert_eq!(parse_i64("1 2"), None);
    assert_eq!(parse_i64("--5"), None);
    assert_eq!(parse_i64("1.5"), None);
}

#[test]
fn parse_u64_plain_and_bounds() {
    assert_eq!(parse_u64("0"), Some(0));
    assert_eq!(parse_u64("+7"), Some(7));
    assert_eq!(parse_u64("18446744073709551615"), Some(u64::MAX));
    assert_eq!(parse_u64("18446744073709551616"), None);
    assert_eq!(parse_u64("-1"), None);
    assert_eq!(parse_u64(""), None);
}

#[test]
fn parse_usize_bounds() {
    assert_eq!(parse_usize("12"), Some(12));
    assert_eq!(parse_usize("x"), None);
}

#[test]
fn format_integers() {
    assert_eq!(i64_string(0).as_str(), "0");
    assert_eq!(i64_string(7).as_str(), "7");
    assert_eq!(i64_string(-5).as_str(), "-5");
    assert_eq!(i64_string(1234567890).as_str(), "1234567890");
    assert_eq!(i64_string(i64::MAX).as_str(), "9223372036854775807");
    assert_eq!(i64_string(i64::MIN).as_str(), "-9223372036854775808");
    assert_eq!(u64_string(u64::MAX).as_str(), "18446744073709551615");
    assert_eq!(usize_string(305).as_str(), "305");
}

#[test]
fn format_then_parse_round_trip() {
    let cases: [i64; 7] = [0, 1, -1, 999, -1000, i64::MAX, i64::MIN];
    for n in cases {
        assert_eq!(parse_i64(i64_string(n).as_str()), Some(n));
    }
}

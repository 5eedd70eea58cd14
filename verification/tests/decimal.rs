use kvs::decimal::{
    format_i64, format_usize, parse_i32, parse_i64, parse_magnitude, parse_u16, parse_usize,
    push_decimal, push_digits,
};

#[test]
fn format_small_numbers() {
    assert_eq!(format_i64(0), b"0".to_vec());
    assert_eq!(format_i64(7), b"7".to_vec());
    assert_eq!(format_i64(10), b"10".to_vec());
    assert_eq!(format_i64(-1), b"-1".to_vec());
    assert_eq!(format_i64(-120), b"-120".to_vec());
}

#[test]
fn format_extremes() {
    assert_eq!(format_i64(i64::MAX), b"9223372036854775807".to_vec());
    assert_eq!(format_i64(i64::MIN), b"-9223372036854775808".to_vec());
    assert_eq!(format_usize(usize::MAX), usize::MAX.to_string().into_bytes());
    assert_eq!(format_usize(0), b"0".to_vec());
}

#[test]
fn format_agrees_with_std() {
    for i in [-1000i64, -999, -11, -10, -9, 0, 9, 10, 11, 99, 100, 101, 12345678901234] {
        assert_eq!(format_i64(i), i.to_string().into_bytes());
    }
}

#[test]
fn push_keeps_what_was_there() {
    let mut out = b"x=".to_vec();
    push_digits(&mut out, 305);
    assert_eq!(out, b"x=305".to_vec());
    push_decimal(&mut out, -7);
    assert_eq!(out, b"x=305-7".to_vec());
    push_digits(&mut out, u64::MAX);
    assert_eq!(out, b"x=305-718446744073709551615".to_vec());
}

#[test]
fn parse_i64_accepts_signs_and_leading_zeros() {
    assert_eq!(parse_i64(b"0"), Some(0));
    assert_eq!(parse_i64(b"+0"), Some(0));
    assert_eq!(parse_i64(b"-0"), Some(0));
    assert_eq!(parse_i64(b"42"), Some(42));
    assert_eq!(parse_i64(b"+42"), Some(42));
    assert_eq!(parse_i64(b"-42"), Some(-42));
    assert_eq!(parse_i64(b"000000000000000000000000042"), Some(42));
    assert_eq!(parse_i64(b"9223372036854775807"), Some(i64::MAX));
    assert_eq!(parse_i64(b"-9223372036854775808"), Some(i64::MIN));
}

#[test]
fn parse_i64_refuses_what_is_no_number() {
    assert_eq!(parse_i64(b""), None);
    assert_eq!(parse_i64(b"+"), None);
    assert_eq!(parse_i64(b"-"), None);
    assert_eq!(parse_i64(b"+-1"), None);
    assert_eq!(parse_i64(b"--1"), None);
    assert_eq!(parse_i64(b"1-"), None);
    assert_eq!(parse_i64(b" 1"), None);
    assert_eq!(parse_i64(b"1 "), None);
    assert_eq!(parse_i64(b"1.0"), None);
    assert_eq!(parse_i64(b"0x10"), None);
    assert_eq!(parse_i64(b"9223372036854775808"), None);
    assert_eq!(parse_i64(b"-9223372036854775809"), None);
    assert_eq!(parse_i64(b"99999999999999999999999999"), None);
}

#[test]
fn parse_i64_agrees_with_std() {
    let texts: [&str; 14] = [
        "", "0", "-0", "+7", "-", "+", "12a", "a12", "0012", "-0012", "9223372036854775807",
        "9223372036854775808", "-9223372036854775808", "-9223372036854775809",
    ];
    for text in texts {
        assert_eq!(parse_i64(text.as_bytes()), text.parse::<i64>().ok());
        assert_eq!(parse_i32(text.as_bytes()), text.parse::<i32>().ok());
        assert_eq!(parse_usize(text.as_bytes()), text.parse::<usize>().ok());
        assert_eq!(parse_u16(text.as_bytes()), text.parse::<u16>().ok());
    }
}

#[test]
fn parse_i32_limits() {
    assert_eq!(parse_i32(b"2147483647"), Some(i32::MAX));
    assert_eq!(parse_i32(b"2147483648"), None);
    assert_eq!(parse_i32(b"-2147483648"), Some(i32::MIN));
    assert_eq!(parse_i32(b"-2147483649"), None);
    assert_eq!(parse_i32(b"-1"), Some(-1));
}

#[test]
fn parse_unsigned_refuses_minus() {
    assert_eq!(parse_usize(b"-0"), None);
    assert_eq!(parse_usize(b"-1"), None);
    assert_eq!(parse_usize(b"+3"), Some(3));
    assert_eq!(parse_usize(b"3"), Some(3));
    assert_eq!(parse_u16(b"-0"), None);
    assert_eq!(parse_u16(b"65535"), Some(65535));
    assert_eq!(parse_u16(b"65536"), None);
    assert_eq!(parse_u16(b"0"), Some(0));
}

#[test]
fn parse_magnitude_from_an_offset() {
    assert_eq!(parse_magnitude(b"ab123", 2, 1000), Some(123));
    assert_eq!(parse_magnitude(b"ab123", 2, 122), None);
    assert_eq!(parse_magnitude(b"ab123", 2, 123), Some(123));
    assert_eq!(parse_magnitude(b"ab123", 5, 1000), None);
    assert_eq!(parse_magnitude(b"ab123", 1, 1000), None);
    assert_eq!(parse_magnitude(b"18446744073709551615", 0, u64::MAX), Some(u64::MAX));
    assert_eq!(parse_magnitude(b"18446744073709551616", 0, u64::MAX), None);
}

#[test]
fn what_is_written_is_read() {
    for i in [i64::MIN, -1, 0, 1, 99, i64::MAX] {
        assert_eq!(parse_i64(&format_i64(i)), Some(i));
    }
    for n in [0usize, 1, 10, 4096, usize::MAX] {
        assert_eq!(parse_usize(&format_usize(n)), Some(n));
    }
}

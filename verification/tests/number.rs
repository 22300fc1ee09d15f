use kvforge::number::{push_decimal, push_signed_decimal, read_i64, read_u64};
use kvforge::Duration;

#[test]
fn numbers_are_written_in_base_ten() {
    for n in [0, 1, 9, 10, 99, 100, 1234567890, u128::MAX] {
        let mut out = b"<".to_vec();
        push_decimal(&mut out, n);
        assert_eq!(out, format!("<{n}").into_bytes());
    }
    for n in [0, 5, -5, -10, i64::MIN, i64::MAX] {
        let mut out = Vec::new();
        push_signed_decimal(&mut out, n);
        assert_eq!(out, n.to_string().into_bytes());
        assert_eq!(read_i64(&out), Some(n));
    }
}

#[test]
fn unsigned_numbers_are_read() {
    for text in [
        "0", "00", "7", "+7", "18446744073709551615", "18446744073709551616", "", "+", "-1", "-0",
        "++1", "1 ", " 1", "1_000", "x", "99999999999999999999999999999999999999999999",
    ] {
        assert_eq!(read_u64(text.as_bytes()), text.parse::<u64>().ok(), "{text}");
    }
    assert_eq!(read_u64(b"\xff"), None);
}

#[test]
fn signed_numbers_are_read() {
    for text in [
        "0", "-0", "+0", "-7", "+7", "9223372036854775807", "9223372036854775808",
        "-9223372036854775808", "-9223372036854775809", "", "-", "+", "--1", "+-1", "1.0", "a",
    ] {
        assert_eq!(read_i64(text.as_bytes()), text.parse::<i64>().ok(), "{text}");
    }
}

#[test]
fn spans_are_measured_in_each_unit() {
    let span = Duration::from_nanos_saturating(1_234_567_890);
    assert_eq!(span.as_secs(), 1);
    assert_eq!(span.as_millis(), 1234);
    assert_eq!(span.as_nanos(), 1_234_567_890);
    assert_eq!(Duration::from_secs(u64::MAX).as_secs(), u64::MAX);
    assert_eq!(Duration::from_secs(3), Duration::from_millis(3000));
    let longest = Duration::from_nanos_saturating(u128::MAX);
    assert_eq!(longest.as_secs(), u64::MAX);
    assert_eq!(longest.as_nanos() % 1_000_000_000, 999_999_999);
}

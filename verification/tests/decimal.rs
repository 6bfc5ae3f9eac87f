use backlight::decimal::{format_value, parse_value};
use backlight::error::BacklightError;

#[test]
fn parses_plain_number() {
    assert_eq!(parse_value(b"1000"), Ok(1000));
}

#[test]
fn parses_zero() {
    assert_eq!(parse_value(b"0"), Ok(0));
}

#[test]
fn parses_with_trailing_newline() {
    assert_eq!(parse_value(b"852\n"), Ok(852));
}

#[test]
fn parses_with_surrounding_whitespace() {
    assert_eq!(parse_value(b" \t 42 \r\n"), Ok(42));
}

#[test]
fn parses_leading_zeros() {
    assert_eq!(parse_value(b"007"), Ok(7));
}

#[test]
fn parses_largest_value() {
    assert_eq!(parse_value(b"18446744073709551615"), Ok(u64::MAX));
}

#[test]
fn rejects_value_past_the_register() {
    assert_eq!(parse_value(b"18446744073709551616"), Err(BacklightError::FormatError));
}

#[test]
fn rejects_empty_text() {
    assert_eq!(parse_value(b""), Err(BacklightError::FormatError));
}

#[test]
fn rejects_whitespace_only_text() {
    assert_eq!(parse_value(b" \n\t"), Err(BacklightError::FormatError));
}

#[test]
fn rejects_letters() {
    assert_eq!(parse_value(b"abc"), Err(BacklightError::FormatError));
}

#[test]
fn rejects_digits_with_embedded_letter() {
    assert_eq!(parse_value(b"12x3"), Err(BacklightError::FormatError));
}

#[test]
fn rejects_negative_number() {
    assert_eq!(parse_value(b"-5"), Err(BacklightError::FormatError));
}

#[test]
fn rejects_inner_space() {
    assert_eq!(parse_value(b"1 2"), Err(BacklightError::FormatError));
}

#[test]
fn formats_zero() {
    assert_eq!(format_value(0), b"0".to_vec());
}

#[test]
fn formats_plain_number() {
    assert_eq!(format_value(1000), b"1000".to_vec());
}

#[test]
fn formats_largest_value() {
    assert_eq!(format_value(u64::MAX), b"18446744073709551615".to_vec());
}

#[test]
fn format_then_parse_returns_the_value() {
    for v in [0u64, 1, 9, 10, 99, 100, 937, 123456789, u64::MAX] {
        assert_eq!(parse_value(&format_value(v)), Ok(v));
    }
}

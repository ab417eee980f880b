use mcl::number::{format_integer, is_decimal_digit, parse_integer};

fn parse(text: &str) -> Option<i64> {
    let chars: Vec<char> = text.chars().collect();
    parse_integer(&chars)
}

#[test]
fn parse_plain_digits() {
    assert_eq!(parse("0"), Some(0));
    assert_eq!(parse("5"), Some(5));
    assert_eq!(parse("42"), Some(42));
    assert_eq!(parse("007"), Some(7));
    assert_eq!(parse("1234567890"), Some(1_234_567_890));
}

#[test]
fn parse_signs() {
    assert_eq!(parse("-1"), Some(-1));
    assert_eq!(parse("+1"), Some(1));
    assert_eq!(parse("-0"), Some(0));
    assert_eq!(parse("+0"), Some(0));
    assert_eq!(parse("-"), None);
    assert_eq!(parse("+"), None);
    assert_eq!(parse("--1"), None);
    assert_eq!(parse("+-1"), None);
    assert_eq!(parse("1-"), None);
}

#[test]
fn parse_rejects_what_is_no_number() {
    assert_eq!(parse(""), None);
    assert_eq!(parse("a"), None);
    assert_eq!(parse("12a"), None);
    assert_eq!(parse("1 2"), None);
    assert_eq!(parse("1.5"), None);
    assert_eq!(parse("0x10"), None);
    assert_eq!(parse("\u{0663}"), None);
    assert_eq!(parse(":1"), None);
}

#[test]
fn parse_at_the_ends_of_the_range() {
    assert_eq!(parse("9223372036854775807"), Some(i64::MAX));
    assert_eq!(parse("+9223372036854775807"), Some(i64::MAX));
    assert_eq!(parse("-9223372036854775808"), Some(i64::MIN));
    assert_eq!(parse("9223372036854775808"), None);
    assert_eq!(parse("-9223372036854775809"), None);
    assert_eq!(parse("99999999999999999999999999"), None);
    assert_eq!(parse("-99999999999999999999999999"), None);
    assert_eq!(parse("000000000000000000000000000009223372036854775807"), Some(i64::MAX));
    assert_eq!(parse("92233720368547758070"), None);
}

#[test]
fn parse_agrees_with_the_standard_library() {
    let samples = [
        "0", "-0", "+5", "12", "-12", "9223372036854775807", "9223372036854775808",
        "-9223372036854775808", "-9223372036854775809", "", "-", "+", "1_000", " 1", "1 ", "abc",
        "18446744073709551616", "00", "-007",
    ];
    for text in samples {
        assert_eq!(parse(text), text.parse::<i64>().ok(), "{}", text);
    }
}

#[test]
fn digits_are_zero_to_nine() {
    for c in ['0', '1', '5', '9'] {
        assert!(is_decimal_digit(c));
    }
    for c in ['/', ':', 'a', ' ', '-', '\u{0663}'] {
        assert!(!is_decimal_digit(c));
    }
}

#[test]
fn format_writes_decimal() {
    assert_eq!(format_integer(0), "0");
    assert_eq!(format_integer(7), "7");
    assert_eq!(format_integer(10), "10");
    assert_eq!(format_integer(-1), "-1");
    assert_eq!(format_integer(-120), "-120");
    assert_eq!(format_integer(1_000_000), "1000000");
    assert_eq!(format_integer(i64::MAX), "9223372036854775807");
    assert_eq!(format_integer(i64::MIN), "-9223372036854775808");
}

#[test]
fn parse_reads_back_what_format_writes() {
    for v in [0, 1, -1, 9, 10, -10, 99, 100, 12345, -98765, i64::MAX, i64::MIN, i64::MAX - 1] {
        let text = format_integer(v);
        assert_eq!(text, v.to_string());
        assert_eq!(parse(&text), Some(v));
    }
}

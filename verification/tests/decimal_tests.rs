use delta_search::decimal::{format_u64, parse_u64};
use delta_search::text::{chars_of, string_of};

#[test]
fn format_zero() {
    assert_eq!(format_u64(0), "0");
}

#[test]
fn format_one_digit() {
    assert_eq!(format_u64(7), "7");
}

#[test]
fn format_several_digits() {
    assert_eq!(format_u64(1203), "1203");
}

#[test]
fn format_the_largest() {
    assert_eq!(format_u64(u64::MAX), "18446744073709551615");
}

#[test]
fn format_agrees_with_std() {
    let values: Vec<u64> = vec![0, 1, 9, 10, 11, 99, 100, 101, 65535, 4294967296, u64::MAX - 1];
    for v in values {
        assert_eq!(format_u64(v), v.to_string());
    }
}

#[test]
fn parse_plain_digits() {
    assert_eq!(parse_u64("3"), Some(3));
    assert_eq!(parse_u64("1203"), Some(1203));
}

#[test]
fn parse_takes_a_plus_sign() {
    assert_eq!(parse_u64("+12"), Some(12));
}

#[test]
fn parse_takes_leading_zeros() {
    assert_eq!(parse_u64("007"), Some(7));
}

#[test]
fn parse_the_largest() {
    assert_eq!(parse_u64("18446744073709551615"), Some(u64::MAX));
}

#[test]
fn parse_refuses_what_does_not_fit() {
    assert_eq!(parse_u64("18446744073709551616"), None);
    assert_eq!(parse_u64("99999999999999999999999"), None);
}

#[test]
fn parse_refuses_the_empty_text() {
    assert_eq!(parse_u64(""), None);
}

#[test]
fn parse_refuses_a_lone_sign() {
    assert_eq!(parse_u64("+"), None);
    assert_eq!(parse_u64("++1"), None);
}

#[test]
fn parse_refuses_a_minus_sign() {
    assert_eq!(parse_u64("-0"), None);
    assert_eq!(parse_u64("-1"), None);
}

#[test]
fn parse_refuses_other_characters() {
    assert_eq!(parse_u64("12a"), None);
    assert_eq!(parse_u64(" 12"), None);
    assert_eq!(parse_u64("12 "), None);
    assert_eq!(parse_u64("1_000"), None);
    assert_eq!(parse_u64("٣"), None);
}

#[test]
fn parse_agrees_with_std() {
    let texts = vec!["", "+", "-", "0", "+0", "-0", "00", "42", "+42", "4 2", "18446744073709551615",
        "18446744073709551616", "184467440737095516150", "x", "1x", "x1"];
    for t in texts {
        assert_eq!(parse_u64(t), t.parse::<u64>().ok());
    }
}

#[test]
fn parse_reads_back_what_format_wrote() {
    let values: Vec<u64> = vec![0, 3, 10, 12345678901234567890, u64::MAX];
    for v in values {
        assert_eq!(parse_u64(&format_u64(v)), Some(v));
    }
}

#[test]
fn characters_and_back() {
    let chars = chars_of("aß€😀");
    assert_eq!(chars, vec!['a', 'ß', '€', '😀']);
    assert_eq!(string_of(&chars), "aß€😀");
    assert_eq!(chars_of(""), Vec::<char>::new());
    assert_eq!(string_of(&Vec::new()), "");
}

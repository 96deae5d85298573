use invi::error::GenericError;
use invi::text::{parse_u32, str_eq, string_of_chars, u32_to_string, ParseNumError};

#[test]
fn numbers_render_in_decimal() {
    assert_eq!(u32_to_string(0), "0");
    assert_eq!(u32_to_string(7), "7");
    assert_eq!(u32_to_string(1234), "1234");
    assert_eq!(u32_to_string(u32::MAX), "4294967295");
}

#[test]
fn parse_accepts_plain_and_signed_numbers() {
    assert_eq!(parse_u32("0"), Ok(0));
    assert_eq!(parse_u32("42"), Ok(42));
    assert_eq!(parse_u32("+42"), Ok(42));
    assert_eq!(parse_u32("4294967295"), Ok(u32::MAX));
}

#[test]
fn parse_rejects_bad_input_by_kind() {
    assert_eq!(parse_u32(""), Err(ParseNumError::Empty));
    assert_eq!(parse_u32("+"), Err(ParseNumError::InvalidDigit));
    assert_eq!(parse_u32("12x"), Err(ParseNumError::InvalidDigit));
    assert_eq!(parse_u32("-1"), Err(ParseNumError::InvalidDigit));
    assert_eq!(parse_u32("4294967296"), Err(ParseNumError::Overflow));
    assert_eq!(
        ParseNumError::Overflow.message(),
        "number too large to fit in target type"
    );
    assert_eq!(
        ParseNumError::Empty.message(),
        "cannot parse integer from empty string"
    );
    assert_eq!(
        ParseNumError::InvalidDigit.message(),
        "invalid digit found in string"
    );
}

#[test]
fn string_of_chars_round_trips() {
    let v: Vec<char> = "North Wall \u{00e9}".chars().collect();
    assert_eq!(string_of_chars(&v), "North Wall \u{00e9}");
}

#[test]
fn str_eq_compares_contents() {
    assert!(str_eq("abc", "abc"));
    assert!(!str_eq("abc", "abd"));
    assert!(!str_eq("abc", "ab"));
}

#[test]
fn generic_error_keeps_its_message() {
    let e = GenericError::new(String::from("something broke"));
    assert_eq!(e.message(), "something broke");
}

use textutils::head::{head_bytes, head_lines, parse_into_usize, ParseUsizeError};

#[test]
fn test_parse_positive_int() {
    let string = String::from("5");
    parse_into_usize(&string).unwrap();
}

#[test]
fn test_parse_negative_int() {
    let string = String::from("-5");
    // -5 is an invalid usize
    parse_into_usize(&string).unwrap_err();
}

#[test]
fn test_parse_basic_string() {
    let string = String::from("hello, world!");
    parse_into_usize(&string).unwrap_err();
}

#[test]
fn parse_returns_the_value() {
    assert_eq!(parse_into_usize("5").unwrap(), 5);
    assert_eq!(parse_into_usize("0").unwrap(), 0);
    assert_eq!(parse_into_usize("12034").unwrap(), 12034);
}

#[test]
fn parse_accepts_one_leading_plus() {
    assert_eq!(parse_into_usize("+5").unwrap(), 5);
    assert_eq!(parse_into_usize("++5").unwrap_err(), ParseUsizeError::InvalidDigit);
}

#[test]
fn parse_empty_is_its_own_error() {
    assert_eq!(parse_into_usize("").unwrap_err(), ParseUsizeError::Empty);
    assert_eq!(parse_into_usize("+").unwrap_err(), ParseUsizeError::InvalidDigit);
}

#[test]
fn parse_rejects_stray_characters() {
    assert_eq!(parse_into_usize("12x").unwrap_err(), ParseUsizeError::InvalidDigit);
    assert_eq!(parse_into_usize(" 5").unwrap_err(), ParseUsizeError::InvalidDigit);
}

#[test]
fn parse_reports_overflow() {
    assert_eq!(
        parse_into_usize("99999999999999999999999999").unwrap_err(),
        ParseUsizeError::Overflow
    );
}

#[test]
fn byte_mode_truncates_without_padding() {
    let content: Vec<u8> = "hello\nworld".as_bytes().to_vec();
    assert_eq!(head_bytes(&content, 5), "hello");
}

#[test]
fn byte_mode_takes_everything_when_short() {
    let content: Vec<u8> = "hello\nworld".as_bytes().to_vec();
    assert_eq!(head_bytes(&content, 100), "hello\nworld");
}

#[test]
fn byte_mode_replaces_invalid_sequences() {
    let content: Vec<u8> = vec![0xff, b'a'];
    assert_eq!(head_bytes(&content, 2), "\u{fffd}a");
}

#[test]
fn line_mode_takes_the_first_lines() {
    let lines = vec![String::from("a"), String::from("b"), String::from("c")];
    assert_eq!(head_lines(&lines, 2), vec![String::from("a"), String::from("b")]);
    assert_eq!(head_lines(&lines, 10), lines);
    assert_eq!(head_lines(&lines, 0), Vec::<String>::new());
}

use languagetool_rust::api::check::Request;
use languagetool_rust::api::server::{is_port, parse_port};
use languagetool_rust::api::words::parse_word;
use languagetool_rust::error::Error;

#[test]
fn error_test_error_invalid_request() {
    let result = Request::new().try_get_text();
    assert!(result.is_err());

    let error: Error = result.unwrap_err();

    assert!(matches!(error, Error::InvalidRequest(_)));
}

#[test]
fn error_test_error_invalid_value() {
    let result = parse_port("test");
    assert!(result.is_err());

    let error: Error = result.unwrap_err();

    assert!(matches!(error, Error::InvalidValue(_)));
}

#[test]
fn parse_port_accepts_four_digits_or_nothing() {
    assert_eq!(parse_port("8081").unwrap(), "8081");
    assert_eq!(parse_port("").unwrap(), "");
    assert!(parse_port("abcd").is_err());
    assert!(parse_port("808").is_err());
    assert!(parse_port("80811").is_err());
    assert!(parse_port("80 1").is_err());
}

#[test]
fn is_port_accepts_four_digits_or_nothing() {
    assert!(is_port("8081").is_ok());
    assert!(is_port("").is_ok());
    assert!(matches!(is_port("abcd"), Err(Error::InvalidValue(_))));
}

#[test]
fn parse_word_refuses_spaces() {
    assert_eq!(parse_word("word").unwrap(), "word");
    assert_eq!(parse_word("").unwrap(), "");
    assert!(matches!(parse_word("two words"), Err(Error::InvalidValue(_))));
    assert!(matches!(parse_word(" "), Err(Error::InvalidValue(_))));
}

#[test]
fn parse_port_counts_bytes_and_takes_other_digits() {
    // Two digits of two bytes each.
    assert_eq!(parse_port("٣٤").unwrap(), "٣٤");
    assert_eq!(parse_port("8٣1").unwrap(), "8٣1");
    assert_eq!(parse_port("½½").unwrap(), "½½");
    // Four digits of two bytes each take eight bytes.
    assert!(parse_port("٣٤٣٤").is_err());
    // Two letters of two bytes each are no digits.
    assert!(parse_port("éé").is_err());
    assert!(parse_port("8 81").is_err());
    assert!(parse_port("+808").is_err());
    assert!(parse_port("808a").is_err());
}

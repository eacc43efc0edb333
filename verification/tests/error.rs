use traffic_core::conditions::error::excerpt_of;
use traffic_core::conditions::{FailureKind, ParseError};

#[test]
fn a_missing_digit_is_an_expected_number() {
    assert_eq!(
        ParseError::from_nom(FailureKind::Digit, "1-x"),
        ParseError::ExpectedNumber("1-x".to_string())
    );
    assert_eq!(
        ParseError::from_nom(FailureKind::Digit, ""),
        ParseError::ExpectedNumber(String::new())
    );
}

#[test]
fn a_missing_character_without_dash_is_an_invalid_range() {
    assert_eq!(
        ParseError::from_nom(FailureKind::Char, "1 3"),
        ParseError::InvalidRange
    );
    assert_eq!(
        ParseError::from_nom(FailureKind::Char, ""),
        ParseError::InvalidRange
    );
}

#[test]
fn a_missing_character_with_dash_is_an_unexpected_first_character() {
    assert_eq!(
        ParseError::from_nom(FailureKind::Char, "1 2-3"),
        ParseError::UnexpectedChar('1', 0)
    );
    assert_eq!(
        ParseError::from_nom(FailureKind::Char, "é-"),
        ParseError::UnexpectedChar('é', 0)
    );
    assert_eq!(
        ParseError::from_nom(FailureKind::Char, "-"),
        ParseError::UnexpectedChar('-', 0)
    );
}

#[test]
fn a_missing_operator_behind_an_open_paren_is_an_unclosed_paren() {
    assert_eq!(
        ParseError::from_nom(FailureKind::Tag, "(1-3"),
        ParseError::UnclosedParen
    );
    assert_eq!(
        ParseError::from_nom(FailureKind::Tag, "("),
        ParseError::UnclosedParen
    );
}

#[test]
fn a_missing_operator_elsewhere_is_an_unknown_operator() {
    assert_eq!(
        ParseError::from_nom(FailureKind::Tag, "(1-3) xor (4-6)"),
        ParseError::UnknownOperator("(1-3) xor (4-6)".to_string())
    );
    assert_eq!(
        ParseError::from_nom(FailureKind::Tag, "1-3 ( "),
        ParseError::UnknownOperator("1-3 ( ".to_string())
    );
    assert_eq!(
        ParseError::from_nom(FailureKind::Tag, ""),
        ParseError::UnknownOperator(String::new())
    );
}

#[test]
fn a_number_too_large_is_an_internal_error() {
    assert_eq!(
        ParseError::from_nom(FailureKind::TooLarge, "4294967296-1"),
        ParseError::InternalError("number too large".to_string())
    );
}

#[test]
fn excerpt_keeps_thirty_characters() {
    let thirty = "012345678901234567890123456789";
    assert_eq!(thirty.chars().count(), 30);
    assert_eq!(excerpt_of(thirty), thirty);
    assert_eq!(excerpt_of(""), "");
    assert_eq!(excerpt_of("short"), "short");
    assert_eq!(
        excerpt_of("012345678901234567890123456789x"),
        "012345678901234567890123456789..."
    );
    assert_eq!(
        excerpt_of("0123456789012345678901234567890123456789"),
        "012345678901234567890123456789..."
    );
}

#[test]
fn excerpt_counts_characters_not_bytes() {
    let thirty = "éééééééééééééééééééééééééééééé";
    assert_eq!(thirty.chars().count(), 30);
    assert_eq!(excerpt_of(thirty), thirty);
    let longer = "éééééééééééééééééééééééééééééééé";
    assert_eq!(excerpt_of(longer), format!("{}...", thirty));
}

#[test]
fn a_long_text_is_shown_by_its_start() {
    let text = "0123456789 0123456789 0123456789 x";
    assert_eq!(
        ParseError::from_nom(FailureKind::Digit, text),
        ParseError::ExpectedNumber("0123456789 0123456789 01234567...".to_string())
    );
    assert_eq!(
        ParseError::from_nom(FailureKind::Tag, text),
        ParseError::UnknownOperator("0123456789 0123456789 01234567...".to_string())
    );
}

//! What can be wrong with the text of a condition.

use vstd::prelude::*;
use vstd::string::*;
use crate::text::{chars_of, contains_char, text_between};

verus! {

/// Why the text of a condition was refused.
#[derive(Debug, Clone, PartialEq, Eq)]
pub enum ParseError {
    /// A character that cannot stand where it stands, and its position.
    UnexpectedChar(char, usize),
    /// A number was expected; the payload shows the start of the text.
    ExpectedNumber(String),
    /// An operator other than `and`, `or`, `&`, `|`; the payload shows the start of the text.
    UnknownOperator(String),
    /// More `(` than `)`.
    UnclosedParen,
    /// More `)` than `(`.
    ExtraClosingParen,
    /// `()` with nothing inside.
    EmptyParens,
    /// A range without its `-`.
    InvalidRange,
    /// A range whose start lies after its end.
    RangeStartGreaterThanEnd(u16, u16),
    /// Text left over behind a complete condition.
    ExtraInput(String),
    /// The operator at the end of the text has nothing to its right.
    MissingOperand(String),
    /// A failure that fits none of the other kinds.
    InternalError(String),
}

/// A [`ParseError`] with its texts as sequences of characters.
pub enum ParseErrorView {
    UnexpectedChar(char, usize),
    ExpectedNumber(Seq<char>),
    UnknownOperator(Seq<char>),
    UnclosedParen,
    ExtraClosingParen,
    EmptyParens,
    InvalidRange,
    RangeStartGreaterThanEnd(u16, u16),
    ExtraInput(Seq<char>),
    MissingOperand(Seq<char>),
    InternalError(Seq<char>),
}

impl View for ParseError {
    type V = ParseErrorView;

    open spec fn view(&self) -> ParseErrorView {
        match self {
            ParseError::UnexpectedChar(c, at) => ParseErrorView::UnexpectedChar(*c, *at),
            ParseError::ExpectedNumber(s) => ParseErrorView::ExpectedNumber(s@),
            ParseError::UnknownOperator(s) => ParseErrorView::UnknownOperator(s@),
            ParseError::UnclosedParen => ParseErrorView::UnclosedParen,
            ParseError::ExtraClosingParen => ParseErrorView::ExtraClosingParen,
            ParseError::EmptyParens => ParseErrorView::EmptyParens,
            ParseError::InvalidRange => ParseErrorView::InvalidRange,
            ParseError::RangeStartGreaterThanEnd(start, end) => {
                ParseErrorView::RangeStartGreaterThanEnd(*start, *end)
            },
            ParseError::ExtraInput(s) => ParseErrorView::ExtraInput(s@),
            ParseError::MissingOperand(s) => ParseErrorView::MissingOperand(s@),
            ParseError::InternalError(s) => ParseErrorView::InternalError(s@),
        }
    }
}

/// What a rule of the grammar was looking for when it gave up.
#[derive(Debug, Clone, Copy, PartialEq, Eq)]
pub enum FailureKind {
    /// A decimal digit.
    Digit,
    /// One particular character: `-`, `(`, `)` or `,`.
    Char,
    /// One of the operators.
    Tag,
    /// A number that does not fit in 32 bits. Unlike the other kinds, this one
    /// ends the whole parse: no other rule is tried in its place.
    TooLarge,
}

/// At most the first 30 characters of `s`; where `s` is longer, `...` follows them.
pub open spec fn excerpt(s: Seq<char>) -> Seq<char> {
    if s.len() > 30 {
        s.subrange(0, 30) + "..."@
    } else {
        s
    }
}

/// The error that is reported when the grammar gave up on `input` for want of `kind`.
pub open spec fn classify(kind: FailureKind, input: Seq<char>) -> ParseErrorView {
    match kind {
        FailureKind::Digit => ParseErrorView::ExpectedNumber(excerpt(input)),
        FailureKind::Char => if !input.contains('-') {
            ParseErrorView::InvalidRange
        } else {
            ParseErrorView::UnexpectedChar(
                if input.len() > 0 {
                    input[0]
                } else {
                    '?'
                },
                0,
            )
        },
        FailureKind::Tag => if input.len() > 0 && input[0] == '(' && !input.contains(')') {
            ParseErrorView::UnclosedParen
        } else {
            ParseErrorView::UnknownOperator(excerpt(input))
        },
        FailureKind::TooLarge => ParseErrorView::InternalError("number too large"@),
    }
}

/// The start of `input` as it is shown in an error.
pub fn excerpt_of(input: &str) -> (r: String)
    ensures
        r@ == excerpt(input@),
{
    let n = input.unicode_len();
    if n > 30 {
        let mut r = text_between(input, 0, 30);
        r.append("...");
        r
    } else {
        input.to_owned()
    }
}

impl ParseError {
    /// Turns what the grammar was looking for when it gave up on `input` into
    /// the error that is shown to the user.
    pub fn from_nom(kind: FailureKind, input: &str) -> (e: ParseError)
        ensures
            e@ == classify(kind, input@),
    {
        match kind {
            FailureKind::Digit => ParseError::ExpectedNumber(excerpt_of(input)),
            FailureKind::Char => {
                let chars = chars_of(input);
                if !contains_char(chars.as_slice(), '-') {
                    ParseError::InvalidRange
                } else if chars.len() > 0 {
                    ParseError::UnexpectedChar(chars[0], 0)
                } else {
                    ParseError::UnexpectedChar('?', 0)
                }
            },
            FailureKind::Tag => {
                let chars = chars_of(input);
                if chars.len() > 0 && chars[0] == '(' && !contains_char(chars.as_slice(), ')') {
                    ParseError::UnclosedParen
                } else {
                    ParseError::UnknownOperator(excerpt_of(input))
                }
            },
            FailureKind::TooLarge => ParseError::InternalError("number too large".to_owned()),
        }
    }
}

} // verus!

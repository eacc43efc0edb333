//! The parser against the same grammar written with parser combinators.

use nom::branch::alt;
use nom::bytes::complete::tag;
use nom::character::complete::{char, digit1, multispace0};
use nom::combinator::{opt, value};
use nom::error::{Error, ErrorKind};
use nom::sequence::delimited;
use nom::Parser;
use traffic_core::conditions::{
    parse_ddr_expression, BinaryOp, Expr, ParseError, Range, RangeOp,
};

fn number<'a>() -> impl Parser<&'a str, Output = u32, Error = Error<&'a str>> {
    nom::combinator::map(digit1, |s: &str| s.parse().unwrap())
}

fn ws<'a, P>(parser: P) -> impl Parser<&'a str, Output = P::Output, Error = Error<&'a str>>
where
    P: Parser<&'a str, Error = Error<&'a str>>,
{
    delimited(multispace0, parser, multispace0)
}

fn range_op<'a>() -> impl Parser<&'a str, Output = Option<RangeOp>, Error = Error<&'a str>> {
    opt(ws(alt((
        value(RangeOp::And, alt((tag("and"), tag("&")))),
        value(RangeOp::Or, alt((tag("or"), tag("|")))),
    ))))
}

fn range<'a>() -> impl Parser<&'a str, Output = Range, Error = Error<&'a str>> {
    move |input: &'a str| {
        let (input, op) = range_op().parse(input)?;
        let (input, start) = ws(number()).parse(input)?;
        let (input, _) = ws(char('-')).parse(input)?;
        let (input, end) = ws(number()).parse(input)?;
        Ok((
            input,
            Range::new(start as u16, end as u16, op.unwrap_or(RangeOp::Or)),
        ))
    }
}

fn parens<'a>() -> impl Parser<&'a str, Output = Expr, Error = Error<&'a str>> {
    move |input: &'a str| {
        let (input, _) = ws(char('(')).parse(input)?;
        let (input, inner) = expr().parse(input)?;
        let (input, _) = ws(char(')')).parse(input)?;
        Ok((input, inner))
    }
}

fn binary_op<'a>() -> impl Parser<&'a str, Output = BinaryOp, Error = Error<&'a str>> {
    ws(alt((
        value(BinaryOp::And, alt((tag("and"), tag("&")))),
        value(BinaryOp::Or, alt((tag("or"), tag("|")))),
    )))
}

fn atom<'a>() -> impl Parser<&'a str, Output = Expr, Error = Error<&'a str>> {
    alt((parens(), nom::combinator::map(range(), Expr::Range)))
}

fn expr<'a>() -> impl Parser<&'a str, Output = Expr, Error = Error<&'a str>> {
    move |mut input: &'a str| {
        let (rest, mut left) = atom().parse(input)?;
        input = rest;
        loop {
            match binary_op().parse(input) {
                Ok((rest, op)) => {
                    let (rest, right) = atom().parse(rest)?;
                    left = Expr::Binary {
                        op,
                        left: Box::new(left),
                        right: Box::new(right),
                    };
                    input = rest;
                }
                Err(nom::Err::Error(_)) => break,
                Err(e) => return Err(e),
            }
        }
        Ok((input, left))
    }
}

fn mr<'a>() -> impl Parser<&'a str, Output = u16, Error = Error<&'a str>> {
    move |input: &'a str| {
        let (input, _) = char(',')(input)?;
        let (input, n) = ws(number()).parse(input)?;
        Ok((input, n as u16))
    }
}

fn expr_with_mr<'a>() -> impl Parser<&'a str, Output = Expr, Error = Error<&'a str>> {
    move |input: &'a str| {
        let (rest, ddr_expr) = expr().parse(input)?;
        match mr().parse(rest) {
            Ok((rest, mr)) => Ok((
                rest,
                Expr::WithMr {
                    ddr_expr: Box::new(ddr_expr),
                    mr,
                },
            )),
            Err(nom::Err::Error(_)) | Err(nom::Err::Failure(_)) => Ok((rest, ddr_expr)),
            Err(e) => Err(e),
        }
    }
}

fn trailing_operator(input: &str) -> Option<String> {
    let trimmed = input.trim_end();
    let patterns = [
        ("and", "and"),
        ("and ", "and"),
        ("or", "or"),
        ("or ", "or"),
        ("&", "&"),
        ("& ", "&"),
        ("|", "|"),
        ("| ", "|"),
    ];
    for (pattern, op) in patterns {
        if trimmed.ends_with(pattern) {
            let before = trimmed[..trimmed.len() - pattern.len()].trim();
            if let Some(last) = before.chars().last() {
                if last.is_digit(10) || last == ')' {
                    return Some(op.to_string());
                }
            }
        }
    }
    None
}

fn paren_balance(input: &str) -> Result<(), ParseError> {
    let mut balance = 0;
    for c in input.chars() {
        match c {
            '(' => balance += 1,
            ')' => {
                if balance == 0 {
                    return Err(ParseError::ExtraClosingParen);
                }
                balance -= 1;
            }
            _ => {}
        }
    }
    if balance > 0 {
        Err(ParseError::UnclosedParen)
    } else {
        Ok(())
    }
}

fn shown(input: &str) -> String {
    if input.chars().count() > 30 {
        format!("{}...", input.chars().take(30).collect::<String>())
    } else {
        input.to_string()
    }
}

fn with_combinators(input: &str) -> Result<Expr, ParseError> {
    let input = input.trim();
    if input.is_empty() {
        return Err(ParseError::MissingOperand("expression".to_string()));
    }
    if let Some(op) = trailing_operator(input) {
        return Err(ParseError::MissingOperand(op));
    }
    paren_balance(input)?;
    if input.contains("()") {
        return Err(ParseError::EmptyParens);
    }
    match expr_with_mr().parse(input) {
        Ok(("", expr)) => {
            if let Expr::Range(range) = &expr {
                if range.start > range.end {
                    return Err(ParseError::RangeStartGreaterThanEnd(
                        range.start,
                        range.end,
                    ));
                }
            }
            Ok(expr)
        }
        Ok((remaining, _)) => {
            let remaining = remaining.trim();
            if remaining.starts_with(')') {
                Err(ParseError::ExtraClosingParen)
            } else {
                Err(ParseError::ExtraInput(remaining.to_string()))
            }
        }
        Err(nom::Err::Error(e)) | Err(nom::Err::Failure(e)) => match e.code {
            ErrorKind::Digit => Err(ParseError::ExpectedNumber(shown(input))),
            ErrorKind::Char => {
                if !input.contains('-') {
                    Err(ParseError::InvalidRange)
                } else {
                    Err(ParseError::UnexpectedChar(
                        input.chars().next().unwrap_or('?'),
                        0,
                    ))
                }
            }
            ErrorKind::Tag => {
                if input.starts_with('(') && !input.contains(')') {
                    Err(ParseError::UnclosedParen)
                } else {
                    Err(ParseError::UnknownOperator(shown(input)))
                }
            }
            other => Err(ParseError::InternalError(format!("{:?}", other))),
        },
        Err(e) => Err(ParseError::InternalError(format!("{:?}", e))),
    }
}

fn agree_on(input: &str) {
    assert_eq!(
        parse_ddr_expression(input),
        with_combinators(input),
        "on {:?}",
        input
    );
}

#[test]
fn agrees_on_chosen_texts() {
    let texts = [
        "1-3",
        "or 1-3",
        "and 4-6",
        "|1-3",
        "& 1 - 3",
        "(1-3)",
        "((1-3))",
        "( 1-3 ) and ( 4-6 )",
        "(1-3) and (4-6) or (7-9)",
        "1-3 & 4-6",
        "1-3 and and 4-6",
        "1-3 or or 4-6 | | 7-9",
        "1-3, 12",
        "1-3,12",
        "1-3 ,12",
        "1-3 , 12",
        "(1-3) and (7-8), 4",
        "1-3, 12, 13",
        "1-3, x",
        "1-3,",
        "5-3",
        "(5-3)",
        "(5-3) and (1-2)",
        "5-3, 1",
        "70000-70001",
        "65536-65535",
        "4294967295-0",
        "00001-00002",
        "1",
        "1-",
        "-",
        "-3",
        "1 3",
        "1 2-3",
        "x",
        "x-1",
        "1-x",
        "(1-3 x)",
        "(1 2)",
        "(x)",
        "1-3 x",
        "1-3 )(",
        "(1-3",
        "(1-3))",
        ")(",
        "()",
        "(1-3) ()",
        "1-3 and",
        "1-3 and ",
        "1-3 or",
        "1-3 &",
        "1-3 |",
        "(1-3) or",
        "1-3and",
        "1-3 band",
        "and",
        "or",
        "|",
        "&",
        "x and",
        "1-3 and x",
        "1-3 and (4-6",
        "android 1-3",
        "and1-3",
        "or1-3or4-6",
        "1-3or4-6",
        "1-3 xor 4-6",
        "",
        "   ",
        "\t1-3\n",
        "1\t-\r\n3",
        "\u{a0}1-3\u{a0}",
        "1-3\u{a0}and",
        "1-3 \u{b}x",
        "1\u{a0}-3",
        "1-3\u{2003},5",
        "\u{661}-\u{663}",
        "\u{663} or",
        "1-\u{663} and",
        "1-3\u{3000}|",
        "(1-3)\u{a0}\u{a0}or\u{a0}",
        "é-1",
        "1-3 ééééééééééééééééééééééééééééééééééé",
        "abcdefghijklmnopqrstuvwxyz0123456789",
        "éééééééééééééééééééééééééééééé",
        "ééééééééééééééééééééééééééééééé",
        "0123456789 0123456789 0123456789 01",
        "0123456789-0123456789 , 0123456789 x",
        "((((((((((1-2))))))))))",
        "(((1-2) and (3-4)) or ((5-6) & (7-8))) | 9-10, 65535",
        "1-2 and 3-4 or 5-6 and 7-8",
        "1-2,3 and 4-5",
        "(1-2,3)",
        "1-2 , 3 ",
        "1-2,  3  ,",
    ];
    for text in texts {
        agree_on(text);
    }
}

fn agree_on_all(pieces: &[&str], so_far: &mut String, left: usize) {
    agree_on(so_far);
    if left == 0 {
        return;
    }
    for piece in pieces {
        let length = so_far.len();
        so_far.push_str(piece);
        agree_on_all(pieces, so_far, left - 1);
        so_far.truncate(length);
    }
}

#[test]
fn agrees_on_every_short_text() {
    let pieces = ["1", "20", "-", "(", ")", " ", "and", "or", "&", "|", ",", "x"];
    agree_on_all(&pieces, &mut String::new(), 4);
}

#[test]
fn agrees_on_every_short_text_of_symbols() {
    let pieces = ["7", "-", "(", ")", " ", "|", ","];
    agree_on_all(&pieces, &mut String::new(), 6);
}

#[test]
fn agrees_on_every_short_text_of_words() {
    let pieces = ["3", "-", " ", "a", "n", "d", "o", "r"];
    agree_on_all(&pieces, &mut String::new(), 5);
}

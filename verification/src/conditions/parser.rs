//! From the text of a condition to its syntax tree.
//!
//! The text is trimmed and checked for three common slips (an operator with
//! nothing behind it, parentheses that do not pair up, empty parentheses)
//! before the grammar is tried on it, so that each slip gets an error of its
//! own.

use vstd::prelude::*;
use vstd::string::*;
use crate::conditions::ast::{BinaryOp, Expr, Range, RangeOp};
use crate::conditions::error::{classify, FailureKind, ParseError, ParseErrorView};
use crate::conditions::grammar::{
    atom_at, binary_operator_at, expr_at, expr_with_mr_at, is_digit, is_digit_char,
    lemma_expr_is_plain, lemma_expr_never_wants_operator, mr_at, number_at, parens_at, range_at,
    range_operator_at, read_atom, read_binary_operator, read_expr, read_expr_with_mr, read_mr,
    read_number, read_parens, read_range, read_range_operator, Found,
};
use crate::text::{
    all_whitespace, chars_of, lemma_back_whitespace_prefix, lemma_trim_idempotent,
    lemma_trim_surrounded, read_back_whitespace, text_between, trim, trim_bounds, trim_end,
};

verus! {

/// Whether `s` ends with `word`.
pub open spec fn ends_with(s: Seq<char>, word: Seq<char>) -> bool {
    s.len() >= word.len() && s.subrange(s.len() - word.len(), s.len() as int) == word
}

/// The operator that `s` ends with.
pub open spec fn last_word(s: Seq<char>) -> Option<Seq<char>> {
    if ends_with(s, "and"@) {
        Some("and"@)
    } else if ends_with(s, "or"@) {
        Some("or"@)
    } else if ends_with(s, "&"@) {
        Some("&"@)
    } else if ends_with(s, "|"@) {
        Some("|"@)
    } else {
        None
    }
}

/// The operator that is left hanging at the end of `s`: trailing whitespace
/// aside, `s` ends with it, and what stands before it is more than
/// whitespace and ends with a digit or with `)`.
pub open spec fn trailing_operator(s: Seq<char>) -> Option<Seq<char>> {
    let t = trim_end(s);
    match last_word(t) {
        None => None,
        Some(word) => {
            let before = trim_end(t.subrange(0, t.len() - word.len()));
            if before.len() > 0 && (is_digit(before.last()) || before.last() == ')') {
                Some(word)
            } else {
                None
            }
        },
    }
}

/// How many more `(` than `)` stand among the first `n` characters of `s`.
pub open spec fn paren_depth(s: Seq<char>, n: int) -> int
    decreases n,
{
    if n <= 0 {
        0
    } else {
        paren_depth(s, n - 1) + if s[n - 1] == '(' {
            1int
        } else if s[n - 1] == ')' {
            -1int
        } else {
            0int
        }
    }
}

/// Some `)` of `s` has no `(` before it to close.
pub open spec fn closes_too_early(s: Seq<char>) -> bool {
    exists|n: int| 0 <= n <= s.len() && #[trigger] paren_depth(s, n) < 0
}

/// Whether the parentheses of `s` pair up, and if not, what is wrong first.
pub open spec fn paren_balance(s: Seq<char>) -> Result<(), ParseErrorView> {
    if closes_too_early(s) {
        Err(ParseErrorView::ExtraClosingParen)
    } else if paren_depth(s, s.len() as int) > 0 {
        Err(ParseErrorView::UnclosedParen)
    } else {
        Ok(())
    }
}

/// `()` occurs in `s`.
pub open spec fn has_empty_parens(s: Seq<char>) -> bool {
    exists|i: int| 0 <= i && i + 1 < s.len() && #[trigger] s[i] == '(' && s[i + 1] == ')'
}

/// What becomes of the trimmed text `t` once the grammar has found `found`
/// at its start.
///
/// A result that ends with the text is the answer, unless it is a single
/// range that runs backwards. Text that is left over is an error, and so is
/// a failure of the grammar, which is reported by its kind.
pub open spec fn verdict(t: Seq<char>, found: Found<Expr>) -> Result<Expr, ParseErrorView> {
    match found {
        Ok((expr, next)) => if next >= t.len() {
            match expr {
                Expr::Range(range) if range.start > range.end => Err(
                    ParseErrorView::RangeStartGreaterThanEnd(range.start, range.end),
                ),
                _ => Ok(expr),
            }
        } else {
            let rest = trim(t.subrange(next, t.len() as int));
            if rest.len() > 0 && rest[0] == ')' {
                Err(ParseErrorView::ExtraClosingParen)
            } else {
                Err(ParseErrorView::ExtraInput(rest))
            }
        },
        Err(kind) => Err(classify(kind, t)),
    }
}

/// The condition that `input` spells, or what is wrong with it.
pub open spec fn parsed(input: Seq<char>) -> Result<Expr, ParseErrorView> {
    let t = trim(input);
    if t.len() == 0 {
        Err(ParseErrorView::MissingOperand("expression"@))
    } else if let Some(word) = trailing_operator(t) {
        Err(ParseErrorView::MissingOperand(word))
    } else if let Err(e) = paren_balance(t) {
        Err(e)
    } else if has_empty_parens(t) {
        Err(ParseErrorView::EmptyParens)
    } else {
        verdict(t, expr_with_mr_at(t, 0))
    }
}

/// Whether `r` is `p`, with the texts of an error taken as sequences of
/// characters.
pub open spec fn same_result<T>(r: Result<T, ParseError>, p: Result<T, ParseErrorView>) -> bool {
    match r {
        Ok(value) => p == Ok::<T, ParseErrorView>(value),
        Err(e) => p == Err::<T, ParseErrorView>(e@),
    }
}

/// Whitespace before and behind a text changes nothing about how it is read.
pub proof fn lemma_surrounding_whitespace(
    before: Seq<char>,
    input: Seq<char>,
    behind: Seq<char>,
)
    requires
        all_whitespace(before),
        all_whitespace(behind),
    ensures
        parsed(before + input + behind) == parsed(input),
{
    lemma_trim_surrounded(before, input, behind);
}

/// A text is read as it is read once trimmed.
pub proof fn lemma_trimmed_reads_the_same(input: Seq<char>)
    ensures
        parsed(trim(input)) == parsed(input),
{
    lemma_trim_idempotent(input);
}

/// What a text is read as has its MR number, if any, at the root and
/// nowhere else; and a text that is read as a single range is read as one
/// that does not run backwards.
pub proof fn lemma_parsed_shape(input: Seq<char>)
    ensures
        parsed(input) matches Ok(expr) ==> expr.mr_only_outermost(),
        parsed(input) matches Ok(Expr::Range(range)) ==> range.is_ordered(),
{
    lemma_expr_is_plain(trim(input), 0);
}

/// A text with a hanging operator, with parentheses that do not pair up, or
/// with `()` in it is never read as a condition, and the first of these
/// slips, in this order, decides the error.
pub proof fn lemma_slips_are_refused(input: Seq<char>)
    ensures
        trailing_operator(trim(input)) matches Some(word) ==> parsed(input) == Err::<
            Expr,
            ParseErrorView,
        >(ParseErrorView::MissingOperand(word)),
        trailing_operator(trim(input)) is None && closes_too_early(trim(input)) ==> parsed(input)
            == Err::<Expr, ParseErrorView>(ParseErrorView::ExtraClosingParen),
        trailing_operator(trim(input)) is None && !closes_too_early(trim(input)) && paren_depth(
            trim(input),
            trim(input).len() as int,
        ) > 0 ==> parsed(input) == Err::<Expr, ParseErrorView>(ParseErrorView::UnclosedParen),
        trailing_operator(trim(input)) is None && paren_balance(trim(input)) is Ok
            && has_empty_parens(trim(input)) ==> parsed(input) == Err::<Expr, ParseErrorView>(
            ParseErrorView::EmptyParens,
        ),
{
    let t = trim(input);
    if t.len() == 0 {
        assert(trim_end(t) =~= t);
        reveal_strlit("and");
        reveal_strlit("or");
        reveal_strlit("&");
        reveal_strlit("|");
        assert(last_word(t) is None);
        assert(paren_depth(t, 0) == 0);
        assert(!closes_too_early(t));
        assert(!has_empty_parens(t));
    }
}

/// Reading a text never fails with `UnknownOperator`: a word that is no
/// operator ends the expression, and is reported as what it is in its place.
pub proof fn lemma_never_unknown_operator(input: Seq<char>)
    ensures
        !(parsed(input) matches Err(ParseErrorView::UnknownOperator(_))),
{
    lemma_expr_never_wants_operator(trim(input), 0);
}

/// Whether the text of `s` before `end` ends with `word`.
fn ends_with_word(s: &[char], end: usize, word: &str) -> (b: bool)
    requires
        end <= s@.len(),
    ensures
        b == ends_with(s@.subrange(0, end as int), word@),
        b ==> word@.len() <= end,
{
    let w = chars_of(word);
    let n = w.len();
    if end < n {
        return false;
    }
    let start = end - n;
    let ghost tail = s@.subrange(0, end as int).subrange(end - n, end as int);
    let mut k: usize = 0;
    while k < n
        invariant
            k <= n == w@.len() == tail.len(),
            start + n == end <= s@.len(),
            w@ == word@,
            tail == s@.subrange(0, end as int).subrange(end - n, end as int),
            forall|m: int| 0 <= m < n ==> tail[m] == s@[start + m],
            forall|m: int| 0 <= m < k ==> tail[m] == w@[m],
        decreases n - k,
    {
        if s[start + k] != w[k] {
            assert(tail[k as int] != w@[k as int]);
            return false;
        }
        k += 1;
    }
    assert(tail =~= w@);
    true
}

/// The operator that is left hanging at the end of `input`, if there is one.
pub fn check_trailing_operator(input: &str) -> (r: Option<String>)
    ensures
        match r {
            Some(word) => trailing_operator(input@) == Some(word@),
            None => trailing_operator(input@) is None,
        },
{
    let chars = chars_of(input);
    let s = chars.as_slice();
    let end = read_back_whitespace(s, s.len());
    let word: &str = if ends_with_word(s, end, "and") {
        "and"
    } else if ends_with_word(s, end, "or") {
        "or"
    } else if ends_with_word(s, end, "&") {
        "&"
    } else if ends_with_word(s, end, "|") {
        "|"
    } else {
        return None;
    };
    let cut = end - word.unicode_len();
    let before = read_back_whitespace(s, cut);
    proof {
        let t = trim_end(s@);
        let prefix = t.subrange(0, t.len() - word@.len());
        assert(prefix =~= s@.subrange(0, cut as int));
        lemma_back_whitespace_prefix(s@, cut as int, cut as int);
        assert(trim_end(prefix) =~= s@.subrange(0, before as int));
    }
    if before > 0 && (is_digit_char(s[before - 1]) || s[before - 1] == ')') {
        Some(word.to_owned())
    } else {
        None
    }
}

/// Checks that the parentheses of `input` pair up.
pub fn check_paren_balance(input: &str) -> (r: Result<(), ParseError>)
    ensures
        same_result(r, paren_balance(input@)),
{
    let chars = chars_of(input);
    let s = chars.as_slice();
    let mut depth: usize = 0;
    let mut i: usize = 0;
    while i < s.len()
        invariant
            i <= s@.len(),
            s@ == input@,
            depth == paren_depth(s@, i as int),
            depth <= i,
            forall|n: int| 0 <= n <= i ==> #[trigger] paren_depth(s@, n) >= 0,
        decreases s@.len() - i,
    {
        if s[i] == '(' {
            depth += 1;
        } else if s[i] == ')' {
            if depth == 0 {
                assert(paren_depth(s@, i + 1) < 0);
                return Err(ParseError::ExtraClosingParen);
            }
            depth -= 1;
        }
        i += 1;
    }
    if depth > 0 {
        Err(ParseError::UnclosedParen)
    } else {
        Ok(())
    }
}

/// Checks that `()` does not occur in `input`.
pub fn check_empty_parens(input: &str) -> (r: Result<(), ParseError>)
    ensures
        same_result(
            r,
            if has_empty_parens(input@) {
                Err(ParseErrorView::EmptyParens)
            } else {
                Ok(())
            },
        ),
{
    let chars = chars_of(input);
    let s = chars.as_slice();
    let n = s.len();
    let mut i: usize = 0;
    while i < n && i + 1 < n
        invariant
            i <= n == s@.len(),
            s@ == input@,
            forall|k: int| 0 <= k < i && k + 1 < n ==> !(#[trigger] s@[k] == '(' && s@[k + 1] == ')'),
        decreases n - i,
    {
        if s[i] == '(' && s[i + 1] == ')' {
            return Err(ParseError::EmptyParens);
        }
        i += 1;
    }
    Ok(())
}

/// Decides what becomes of the trimmed text `text` once the grammar has
/// found `found` at its start.
pub fn conclude(text: &str, found: Result<(Expr, usize), FailureKind>) -> (r: Result<
    Expr,
    ParseError,
>)
    requires
        found matches Ok((_, next)) ==> next <= text@.len(),
    ensures
        match found {
            Ok((expr, next)) => same_result(r, verdict(text@, Ok((expr, next as int)))),
            Err(kind) => same_result(r, verdict(text@, Err(kind))),
        },
{
    match found {
        Ok((expr, next)) => {
            let chars = chars_of(text);
            let n = chars.len();
            if next >= n {
                match expr {
                    Expr::Range(range) => {
                        if range.start > range.end {
                            Err(ParseError::RangeStartGreaterThanEnd(range.start, range.end))
                        } else {
                            Ok(Expr::Range(range))
                        }
                    },
                    other => Ok(other),
                }
            } else {
                let tail = vstd::slice::slice_subrange(chars.as_slice(), next, n);
                let (a, b) = trim_bounds(tail);
                proof {
                    assert(tail@.subrange(a as int, b as int) =~= text@.subrange(
                        next + a,
                        next + b,
                    ));
                }
                if a < b && tail[a] == ')' {
                    Err(ParseError::ExtraClosingParen)
                } else {
                    Err(ParseError::ExtraInput(text_between(text, next + a, next + b)))
                }
            }
        },
        Err(kind) => Err(ParseError::from_nom(kind, text)),
    }
}

/// Reads the condition that `input` spells.
///
/// The result is `Ok` exactly for the texts that, once trimmed, are not
/// empty, leave no operator hanging, pair up their parentheses, hold no `()`,
/// and are one expression of the grammar from start to end, with or without
/// an MR number, that is not a single range running backwards. In every other
/// case the result is the error of the first of these demands that fails.
pub fn parse_ddr_expression(input: &str) -> (r: Result<Expr, ParseError>)
    ensures
        same_result(r, parsed(input@)),
        r matches Ok(expr) ==> expr.mr_only_outermost(),
        r matches Ok(Expr::Range(range)) ==> range.is_ordered(),
{
    proof {
        lemma_parsed_shape(input@);
    }
    let all = chars_of(input);
    let (a, b) = trim_bounds(all.as_slice());
    if a == b {
        return Err(ParseError::MissingOperand("expression".to_owned()));
    }
    let text = input.substring_char(a, b);
    if let Some(word) = check_trailing_operator(text) {
        return Err(ParseError::MissingOperand(word));
    }
    if let Err(e) = check_paren_balance(text) {
        return Err(e);
    }
    if let Err(e) = check_empty_parens(text) {
        return Err(e);
    }
    let chars = chars_of(text);
    let found = read_expr_with_mr(chars.as_slice(), 0);
    conclude(text, found)
}

/// Whether `r` holds what the rule finds at the start of `s`, `f`, together
/// with the text of `s` that lies behind it.
pub open spec fn found_with_rest<T>(
    r: Result<(&str, T), FailureKind>,
    s: Seq<char>,
    f: Found<T>,
) -> bool {
    match r {
        Ok((rest, value)) => f matches Ok((v, next)) && v == value && 0 <= next <= s.len()
            && rest@ == s.subrange(next, s.len() as int),
        Err(kind) => f == Err::<(T, int), FailureKind>(kind),
    }
}

/// Pairs what a rule found at the start of `input` with the rest of `input`.
fn with_rest<'a, T>(input: &'a str, found: Result<(T, usize), FailureKind>) -> (r: Result<
    (&'a str, T),
    FailureKind,
>)
    requires
        found matches Ok((_, next)) ==> next <= input@.len(),
    ensures
        match found {
            Ok((value, next)) => r matches Ok((rest, v)) && v == value && rest@
                == input@.subrange(next as int, input@.len() as int),
            Err(kind) => r == Err::<(&str, T), FailureKind>(kind),
        },
{
    match found {
        Ok((value, next)) => Ok((input.substring_char(next, input.unicode_len()), value)),
        Err(kind) => Err(kind),
    }
}

/// Reads a number, and the blanks around it, from the start of `input`.
pub fn number_parser<'a>(input: &'a str) -> (r: Result<(&'a str, u32), FailureKind>)
    ensures
        found_with_rest(r, input@, number_at(input@, 0)),
{
    let chars = chars_of(input);
    with_rest(input, read_number(chars.as_slice(), 0))
}

/// Reads the operator between two atoms from the start of `input`.
pub fn binary_op_parser<'a>(input: &'a str) -> (r: Result<(&'a str, BinaryOp), FailureKind>)
    ensures
        found_with_rest(r, input@, binary_operator_at(input@, 0)),
{
    let chars = chars_of(input);
    with_rest(input, read_binary_operator(chars.as_slice(), 0))
}

/// Reads the operator before a range from the start of `input`, where one
/// stands there; where none does, all of `input` is the rest.
pub fn range_op_parser<'a>(input: &'a str) -> (r: (&'a str, Option<RangeOp>))
    ensures
        r.1 == range_operator_at(input@, 0).0,
        0 <= range_operator_at(input@, 0).1 <= input@.len(),
        r.0@ == input@.subrange(range_operator_at(input@, 0).1, input@.len() as int),
{
    let chars = chars_of(input);
    let (written, next) = read_range_operator(chars.as_slice(), 0);
    (input.substring_char(next, chars.len()), written)
}

/// Reads a range from the start of `input`.
pub fn range_parser<'a>(input: &'a str) -> (r: Result<(&'a str, Range), FailureKind>)
    ensures
        found_with_rest(r, input@, range_at(input@, 0)),
{
    let chars = chars_of(input);
    with_rest(input, read_range(chars.as_slice(), 0))
}

/// Reads an expression in parentheses from the start of `input`.
pub fn parens_parser<'a>(input: &'a str) -> (r: Result<(&'a str, Expr), FailureKind>)
    ensures
        found_with_rest(r, input@, parens_at(input@, 0)),
{
    let chars = chars_of(input);
    with_rest(input, read_parens(chars.as_slice(), 0))
}

/// Reads an atom from the start of `input`.
pub fn atom_parser<'a>(input: &'a str) -> (r: Result<(&'a str, Expr), FailureKind>)
    ensures
        found_with_rest(r, input@, atom_at(input@, 0)),
{
    let chars = chars_of(input);
    with_rest(input, read_atom(chars.as_slice(), 0))
}

/// Reads an expression from the start of `input`.
pub fn expr_parser<'a>(input: &'a str) -> (r: Result<(&'a str, Expr), FailureKind>)
    ensures
        found_with_rest(r, input@, expr_at(input@, 0)),
{
    let chars = chars_of(input);
    with_rest(input, read_expr(chars.as_slice(), 0))
}

/// Reads a comma and an MR number from the start of `input`.
pub fn mr_parser<'a>(input: &'a str) -> (r: Result<(&'a str, u16), FailureKind>)
    ensures
        found_with_rest(r, input@, mr_at(input@, 0)),
{
    let chars = chars_of(input);
    with_rest(input, read_mr(chars.as_slice(), 0))
}

/// Reads an expression, and its MR number where one follows, from the start
/// of `input`.
pub fn expr_with_mr_parser<'a>(input: &'a str) -> (r: Result<(&'a str, Expr), FailureKind>)
    ensures
        found_with_rest(r, input@, expr_with_mr_at(input@, 0)),
{
    let chars = chars_of(input);
    with_rest(input, read_expr_with_mr(chars.as_slice(), 0))
}

} // verus!

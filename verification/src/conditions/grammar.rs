//! The grammar of conditions, as functions from a text and a position to what
//! stands there.
//!
//! ```text
//! expr_with_mr := expr [ ',' number ]
//! expr         := atom ( operator atom )*
//! atom         := '(' expr ')' | range
//! range        := [ operator ] number '-' number
//! operator     := 'and' | '&' | 'or' | '|'
//! number       := digit+
//! ```
//!
//! Blanks may stand around every token but before the comma. `and` and `or`
//! bind alike, and a chain of them groups to the left. Where both forms of an
//! atom fail, the failure of the second form, the range, is the one reported.
//! A number may have any count of digits as long as its value fits in 32
//! bits; of that value a range and an MR number keep the low 16 bits. A
//! number beyond 32 bits ends the reading at once, whatever rule met it.
//!
//! Each rule has a spec function, which says what the rule finds in a
//! sequence of characters, and an executable function that is proved to find
//! exactly that.

use vstd::prelude::*;
use crate::conditions::ast::{BinaryOp, Expr, Range, RangeOp};
use crate::conditions::error::FailureKind;
use crate::text::{decimal, digit_char};

verus! {

/// What a rule finds at a position: a value and the position behind it, or
/// the reason why the rule does not match.
pub type Found<T> = Result<(T, int), FailureKind>;

/// Space, tab, carriage return and line feed: what may stand around a token.
pub open spec fn is_blank(c: char) -> bool {
    c == ' ' || c == '\t' || c == '\r' || c == '\n'
}

/// The ten decimal digits.
pub open spec fn is_digit(c: char) -> bool {
    '0' <= c <= '9'
}

/// The number that the digit `c` stands for.
pub open spec fn digit_value(c: char) -> nat {
    (c as u32 - '0' as u32) as nat
}

/// The first position at or after `i` that holds no blank.
pub open spec fn skip_blanks(s: Seq<char>, i: int) -> int
    decreases s.len() - i,
{
    if 0 <= i < s.len() && is_blank(s[i]) {
        skip_blanks(s, i + 1)
    } else {
        i
    }
}

/// The first position at or after `i` that holds no digit.
pub open spec fn skip_digits(s: Seq<char>, i: int) -> int
    decreases s.len() - i,
{
    if 0 <= i < s.len() && is_digit(s[i]) {
        skip_digits(s, i + 1)
    } else {
        i
    }
}

/// The number that the digits of `s` from `from` up to `to` spell in base ten.
pub open spec fn number_value(s: Seq<char>, from: int, to: int) -> nat
    decreases to - from,
{
    if from >= to {
        0
    } else {
        number_value(s, from, to - 1) * 10 + digit_value(s[to - 1])
    }
}

/// The low 16 bits of `n`.
pub open spec fn low_16(n: u32) -> u16 {
    (n % 0x1_0000) as u16
}

/// The operator that is spelled at `i`, and the position behind it.
pub open spec fn operator_at(s: Seq<char>, i: int) -> Option<(BinaryOp, int)> {
    if 0 <= i && i + 3 <= s.len() && s[i] == 'a' && s[i + 1] == 'n' && s[i + 2] == 'd' {
        Some((BinaryOp::And, i + 3))
    } else if 0 <= i < s.len() && s[i] == '&' {
        Some((BinaryOp::And, i + 1))
    } else if 0 <= i && i + 2 <= s.len() && s[i] == 'o' && s[i + 1] == 'r' {
        Some((BinaryOp::Or, i + 2))
    } else if 0 <= i < s.len() && s[i] == '|' {
        Some((BinaryOp::Or, i + 1))
    } else {
        None
    }
}

/// An operator with the blanks around it.
pub open spec fn spaced_operator_at(s: Seq<char>, i: int) -> Option<(BinaryOp, int)> {
    match operator_at(s, skip_blanks(s, i)) {
        Some((op, j)) => Some((op, skip_blanks(s, j))),
        None => None,
    }
}

/// The character `c` with the blanks around it: the position behind them.
pub open spec fn spaced_char_at(s: Seq<char>, i: int, c: char) -> Option<int> {
    let a = skip_blanks(s, i);
    if 0 <= a < s.len() && s[a] == c {
        Some(skip_blanks(s, a + 1))
    } else {
        None
    }
}

/// A number with the blanks around it.
pub open spec fn number_at(s: Seq<char>, i: int) -> Found<u32> {
    let a = skip_blanks(s, i);
    let b = skip_digits(s, a);
    if b == a {
        Err(FailureKind::Digit)
    } else if number_value(s, a, b) > u32::MAX {
        Err(FailureKind::TooLarge)
    } else {
        Ok((number_value(s, a, b) as u32, skip_blanks(s, b)))
    }
}

/// The operator between two atoms, with the blanks around it; where none
/// stands, an operator is what is missing.
pub open spec fn binary_operator_at(s: Seq<char>, i: int) -> Found<BinaryOp> {
    match spaced_operator_at(s, i) {
        Some(found) => Ok(found),
        None => Err(FailureKind::Tag),
    }
}

/// The operator before a range, with the blanks around it, or none: where
/// none stands, nothing is taken, not even blanks.
pub open spec fn range_operator_at(s: Seq<char>, i: int) -> (Option<RangeOp>, int) {
    match spaced_operator_at(s, i) {
        Some((op, j)) => (Some(range_operator(op)), j),
        None => (None, i),
    }
}

/// The operator of a range, for the word that is written before it.
pub open spec fn range_operator(op: BinaryOp) -> RangeOp {
    match op {
        BinaryOp::And => RangeOp::And,
        BinaryOp::Or => RangeOp::Or,
    }
}

/// A range: an operator or none, a number, `-`, a number. Without an
/// operator the range has `Or`. Each number is cut to its low 16 bits; that
/// the first is not above the second is not asked here.
pub open spec fn range_at(s: Seq<char>, i: int) -> Found<Range> {
    let (written, j) = range_operator_at(s, i);
    let operator = match written {
        Some(op) => op,
        None => RangeOp::Or,
    };
    match number_at(s, j) {
        Err(kind) => Err(kind),
        Ok((start, a)) => match spaced_char_at(s, a, '-') {
            None => Err(FailureKind::Char),
            Some(b) => match number_at(s, b) {
                Err(kind) => Err(kind),
                Ok((end, c)) => Ok((Range { start: low_16(start), end: low_16(end), operator }, c)),
            },
        },
    }
}

/// An atom: an expression in parentheses, or else a range.
pub open spec fn atom_at(s: Seq<char>, i: int) -> Found<Expr>
    decreases s.len() - i, 2int,
{
    match parens_at(s, i) {
        Ok(found) => Ok(found),
        Err(FailureKind::TooLarge) => Err(FailureKind::TooLarge),
        Err(_) => match range_at(s, i) {
            Ok((range, j)) => Ok((Expr::Range(range), j)),
            Err(kind) => Err(kind),
        },
    }
}

/// `(`, an expression, `)`: the expression itself.
pub open spec fn parens_at(s: Seq<char>, i: int) -> Found<Expr>
    decreases s.len() - i, 1int,
{
    match spaced_char_at(s, i, '(') {
        None => Err(FailureKind::Char),
        Some(a) => if i < a <= s.len() {
            match expr_at(s, a) {
                Err(kind) => Err(kind),
                Ok((inner, b)) => match spaced_char_at(s, b, ')') {
                    None => Err(FailureKind::Char),
                    Some(c) => Ok((inner, c)),
                },
            }
        } else {
            // never taken: the position behind `(` lies behind `i`
            Err(FailureKind::Char)
        },
    }
}

/// An expression: an atom and the chain of operators and atoms behind it.
pub open spec fn expr_at(s: Seq<char>, i: int) -> Found<Expr>
    decreases s.len() - i, 3int,
{
    match atom_at(s, i) {
        Err(kind) => Err(kind),
        Ok((first, j)) => if i < j <= s.len() {
            chain_at(s, j, first)
        } else {
            // never taken: an atom is not empty
            Err(FailureKind::Char)
        },
    }
}

/// The rest of an expression of which `left` has been read: while an operator
/// follows, the atom behind it is joined to what stands on its left.
pub open spec fn chain_at(s: Seq<char>, i: int, left: Expr) -> Found<Expr>
    decreases s.len() - i, 0int,
{
    match spaced_operator_at(s, i) {
        None => Ok((left, i)),
        Some((op, j)) => if i < j <= s.len() {
            match atom_at(s, j) {
                Err(kind) => Err(kind),
                Ok((right, k)) => if j < k <= s.len() {
                    chain_at(s, k, Expr::Binary { op, left: Box::new(left), right: Box::new(right) })
                } else {
                    // never taken: an atom is not empty
                    Err(FailureKind::Char)
                },
            }
        } else {
            // never taken: an operator is not empty
            Err(FailureKind::Char)
        },
    }
}

/// The MR number behind an expression: a comma, directly at `i`, and a number.
pub open spec fn mr_at(s: Seq<char>, i: int) -> Found<u16> {
    if 0 <= i < s.len() && s[i] == ',' {
        match number_at(s, i + 1) {
            Err(kind) => Err(kind),
            Ok((n, j)) => Ok((low_16(n), j)),
        }
    } else {
        Err(FailureKind::Char)
    }
}

/// An expression, with its MR number where one follows. Where none follows,
/// or what follows the comma is no number, the expression stands alone and
/// ends where it ended.
pub open spec fn expr_with_mr_at(s: Seq<char>, i: int) -> Found<Expr> {
    match expr_at(s, i) {
        Err(kind) => Err(kind),
        Ok((expr, j)) => match mr_at(s, j) {
            Ok((mr, k)) => Ok((Expr::WithMr { ddr_expr: Box::new(expr), mr }, k)),
            Err(FailureKind::TooLarge) => Err(FailureKind::TooLarge),
            Err(_) => Ok((expr, j)),
        },
    }
}

/// Whether the executable result `r` is what the rule finds, `f`.
pub open spec fn finds<T>(r: Result<(T, usize), FailureKind>, f: Found<T>) -> bool {
    match r {
        Ok((value, next)) => f == Ok::<(T, int), FailureKind>((value, next as int)),
        Err(kind) => f == Err::<(T, int), FailureKind>(kind),
    }
}

/// What a rule finds lies behind where it started, and within the text.
pub open spec fn advances<T>(f: Found<T>, i: int, len: nat) -> bool {
    f matches Ok((_, next)) ==> i < next <= len
}

/// Skipping blanks stops within the text, passes over blanks only, stops at
/// what is none, and has nothing left to skip where it stopped.
pub proof fn lemma_skip_blanks(s: Seq<char>, i: int)
    requires
        0 <= i <= s.len(),
    ensures
        i <= skip_blanks(s, i) <= s.len(),
        forall|k: int| i <= k < skip_blanks(s, i) ==> is_blank(#[trigger] s[k]),
        skip_blanks(s, i) < s.len() ==> !is_blank(s[skip_blanks(s, i)]),
        skip_blanks(s, skip_blanks(s, i)) == skip_blanks(s, i),
    decreases s.len() - i,
{
    if i < s.len() && is_blank(s[i]) {
        lemma_skip_blanks(s, i + 1);
    }
}

/// Skipping digits stops within the text, passes over digits only, and stops
/// at what is none.
pub proof fn lemma_skip_digits(s: Seq<char>, i: int)
    requires
        0 <= i <= s.len(),
    ensures
        i <= skip_digits(s, i) <= s.len(),
        forall|k: int| i <= k < skip_digits(s, i) ==> is_digit(#[trigger] s[k]),
        skip_digits(s, i) < s.len() ==> !is_digit(s[skip_digits(s, i)]),
    decreases s.len() - i,
{
    if i < s.len() && is_digit(s[i]) {
        lemma_skip_digits(s, i + 1);
    }
}

/// A number, an operator and a range each take at least one character and
/// end within the text.
pub proof fn lemma_tokens_advance(s: Seq<char>, i: int)
    requires
        0 <= i <= s.len(),
    ensures
        advances(number_at(s, i), i, s.len()),
        spaced_operator_at(s, i) matches Some((_, j)) ==> i < j <= s.len(),
        forall|c: char| (#[trigger] spaced_char_at(s, i, c)) matches Some(j) ==> i < j <= s.len(),
        advances(range_at(s, i), i, s.len()),
{
    lemma_skip_blanks(s, i);
    let a = skip_blanks(s, i);
    lemma_skip_digits(s, a);
    lemma_skip_blanks(s, skip_digits(s, a));
    if a < s.len() {
        lemma_skip_blanks(s, a + 1);
    }
    if let Some((_, j)) = operator_at(s, a) {
        lemma_skip_blanks(s, j);
    }
    let j = match spaced_operator_at(s, i) {
        Some((_, j)) => j,
        None => i,
    };
    if let Ok((_, a)) = number_at(s, j) {
        lemma_number_advances(s, j);
        if let Some(b) = spaced_char_at(s, a, '-') {
            lemma_char_advances(s, a, '-');
            lemma_number_advances(s, b);
        }
    }
}

/// A number takes at least one character and ends within the text.
proof fn lemma_number_advances(s: Seq<char>, i: int)
    requires
        0 <= i <= s.len(),
    ensures
        advances(number_at(s, i), i, s.len()),
{
    lemma_skip_blanks(s, i);
    let a = skip_blanks(s, i);
    lemma_skip_digits(s, a);
    lemma_skip_blanks(s, skip_digits(s, a));
}

/// A character with its blanks takes at least one character and ends within
/// the text.
proof fn lemma_char_advances(s: Seq<char>, i: int, c: char)
    requires
        0 <= i <= s.len(),
    ensures
        spaced_char_at(s, i, c) matches Some(j) ==> i < j <= s.len(),
{
    lemma_skip_blanks(s, i);
    let a = skip_blanks(s, i);
    if a < s.len() {
        lemma_skip_blanks(s, a + 1);
    }
}

/// An atom takes at least one character and ends within the text, so the
/// branches of the rules that are marked as never taken are never taken.
pub proof fn lemma_atom_advances(s: Seq<char>, i: int)
    requires
        0 <= i <= s.len(),
    ensures
        advances(atom_at(s, i), i, s.len()),
    decreases s.len() - i, 2int,
{
    lemma_parens_advance(s, i);
    lemma_tokens_advance(s, i);
}

/// An expression in parentheses takes at least one character and ends
/// within the text.
pub proof fn lemma_parens_advance(s: Seq<char>, i: int)
    requires
        0 <= i <= s.len(),
    ensures
        advances(parens_at(s, i), i, s.len()),
    decreases s.len() - i, 1int,
{
    lemma_char_advances(s, i, '(');
    if let Some(a) = spaced_char_at(s, i, '(') {
        lemma_expr_advances(s, a);
        if let Ok((_, b)) = expr_at(s, a) {
            lemma_char_advances(s, b, ')');
        }
    }
}

/// An expression takes at least one character and ends within the text.
pub proof fn lemma_expr_advances(s: Seq<char>, i: int)
    requires
        0 <= i <= s.len(),
    ensures
        advances(expr_at(s, i), i, s.len()),
    decreases s.len() - i, 3int,
{
    lemma_atom_advances(s, i);
    if let Ok((first, j)) = atom_at(s, i) {
        lemma_chain_advances(s, j, first);
    }
}

/// A chain ends at or behind its start, and within the text.
pub proof fn lemma_chain_advances(s: Seq<char>, i: int, left: Expr)
    requires
        0 <= i <= s.len(),
    ensures
        chain_at(s, i, left) matches Ok((_, next)) ==> i <= next <= s.len(),
    decreases s.len() - i, 0int,
{
    lemma_tokens_advance(s, i);
    if let Some((op, j)) = spaced_operator_at(s, i) {
        lemma_atom_advances(s, j);
        if let Ok((right, k)) = atom_at(s, j) {
            lemma_chain_advances(
                s,
                k,
                Expr::Binary { op, left: Box::new(left), right: Box::new(right) },
            );
        }
    }
}

/// An expression is an atom and the chain behind it.
pub proof fn lemma_expr_is_atom_and_chain(s: Seq<char>, i: int)
    requires
        0 <= i <= s.len(),
    ensures
        match atom_at(s, i) {
            Ok((first, j)) => expr_at(s, i) == chain_at(s, j, first),
            Err(kind) => expr_at(s, i) == Err::<(Expr, int), FailureKind>(kind),
        },
{
    lemma_atom_advances(s, i);
}

/// An expression in parentheses is `(`, an expression and `)`.
pub proof fn lemma_parens_are_expr_in_parens(s: Seq<char>, i: int)
    requires
        0 <= i <= s.len(),
    ensures
        match spaced_char_at(s, i, '(') {
            Some(a) => match expr_at(s, a) {
                Ok((inner, b)) => match spaced_char_at(s, b, ')') {
                    Some(c) => parens_at(s, i) == Ok::<(Expr, int), FailureKind>((inner, c)),
                    None => parens_at(s, i) == Err::<(Expr, int), FailureKind>(FailureKind::Char),
                },
                Err(kind) => parens_at(s, i) == Err::<(Expr, int), FailureKind>(kind),
            },
            None => parens_at(s, i) == Err::<(Expr, int), FailureKind>(FailureKind::Char),
        },
{
    lemma_char_advances(s, i, '(');
}

/// A chain groups to the left: what has been read so far becomes, whole, the
/// left side of the next operator, whichever operator that is.
pub proof fn lemma_chain_groups_left(s: Seq<char>, i: int, left: Expr)
    requires
        0 <= i <= s.len(),
    ensures
        spaced_operator_at(s, i) is None ==> chain_at(s, i, left) == Ok::<(Expr, int), FailureKind>(
            (left, i),
        ),
        match spaced_operator_at(s, i) {
            Some((op, j)) => match atom_at(s, j) {
                Ok((right, k)) => chain_at(s, i, left) == chain_at(
                    s,
                    k,
                    Expr::Binary { op, left: Box::new(left), right: Box::new(right) },
                ),
                Err(kind) => chain_at(s, i, left) == Err::<(Expr, int), FailureKind>(kind),
            },
            None => true,
        },
{
    lemma_tokens_advance(s, i);
    if let Some((_, j)) = spaced_operator_at(s, i) {
        lemma_atom_advances(s, j);
    }
}

/// No MR number occurs in an atom.
pub proof fn lemma_atom_is_plain(s: Seq<char>, i: int)
    ensures
        atom_at(s, i) matches Ok((expr, _)) ==> expr.is_plain(),
    decreases s.len() - i, 2int,
{
    lemma_parens_are_plain(s, i);
}

/// No MR number occurs in an expression in parentheses.
pub proof fn lemma_parens_are_plain(s: Seq<char>, i: int)
    ensures
        parens_at(s, i) matches Ok((expr, _)) ==> expr.is_plain(),
    decreases s.len() - i, 1int,
{
    if let Some(a) = spaced_char_at(s, i, '(') {
        if i < a <= s.len() {
            lemma_expr_is_plain(s, a);
        }
    }
}

/// No MR number occurs in an expression: it can only follow one.
pub proof fn lemma_expr_is_plain(s: Seq<char>, i: int)
    ensures
        expr_at(s, i) matches Ok((expr, _)) ==> expr.is_plain(),
    decreases s.len() - i, 3int,
{
    lemma_atom_is_plain(s, i);
    if let Ok((first, j)) = atom_at(s, i) {
        if i < j <= s.len() {
            lemma_chain_is_plain(s, j, first);
        }
    }
}

/// A chain adds no MR number to what stands on its left.
pub proof fn lemma_chain_is_plain(s: Seq<char>, i: int, left: Expr)
    requires
        left.is_plain(),
    ensures
        chain_at(s, i, left) matches Ok((expr, _)) ==> expr.is_plain(),
    decreases s.len() - i, 0int,
{
    if let Some((op, j)) = spaced_operator_at(s, i) {
        if i < j <= s.len() {
            lemma_atom_is_plain(s, j);
            if let Ok((right, k)) = atom_at(s, j) {
                if j < k <= s.len() {
                    lemma_chain_is_plain(
                        s,
                        k,
                        Expr::Binary { op, left: Box::new(left), right: Box::new(right) },
                    );
                }
            }
        }
    }
}

/// No rule of the grammar gives up for want of an operator: where an
/// operator may stand, the rule goes on without it.
pub proof fn lemma_atom_never_wants_operator(s: Seq<char>, i: int)
    ensures
        atom_at(s, i) != Err::<(Expr, int), FailureKind>(FailureKind::Tag),
    decreases s.len() - i, 2int,
{
    lemma_parens_never_want_operator(s, i);
}

/// An expression in parentheses never gives up for want of an operator.
pub proof fn lemma_parens_never_want_operator(s: Seq<char>, i: int)
    ensures
        parens_at(s, i) != Err::<(Expr, int), FailureKind>(FailureKind::Tag),
    decreases s.len() - i, 1int,
{
    if let Some(a) = spaced_char_at(s, i, '(') {
        if i < a <= s.len() {
            lemma_expr_never_wants_operator(s, a);
        }
    }
}

/// An expression, with or without MR number, never gives up for want of an
/// operator.
pub proof fn lemma_expr_never_wants_operator(s: Seq<char>, i: int)
    ensures
        expr_at(s, i) != Err::<(Expr, int), FailureKind>(FailureKind::Tag),
        expr_with_mr_at(s, i) != Err::<(Expr, int), FailureKind>(FailureKind::Tag),
    decreases s.len() - i, 3int,
{
    lemma_atom_never_wants_operator(s, i);
    if let Ok((first, j)) = atom_at(s, i) {
        if i < j <= s.len() {
            lemma_chain_never_wants_operator(s, j, first);
        }
    }
}

/// A chain never gives up for want of an operator.
pub proof fn lemma_chain_never_wants_operator(s: Seq<char>, i: int, left: Expr)
    ensures
        chain_at(s, i, left) != Err::<(Expr, int), FailureKind>(FailureKind::Tag),
    decreases s.len() - i, 0int,
{
    if let Some((op, j)) = spaced_operator_at(s, i) {
        if i < j <= s.len() {
            lemma_atom_never_wants_operator(s, j);
            if let Ok((right, k)) = atom_at(s, j) {
                if j < k <= s.len() {
                    lemma_chain_never_wants_operator(
                        s,
                        k,
                        Expr::Binary { op, left: Box::new(left), right: Box::new(right) },
                    );
                }
            }
        }
    }
}

/// A number that is written in base ten is read back as itself: its text is
/// all digits, and they spell the number.
pub proof fn lemma_decimal_reads_back(n: nat)
    ensures
        decimal(n).len() > 0,
        forall|k: int| 0 <= k < decimal(n).len() ==> is_digit(#[trigger] decimal(n)[k]),
        number_value(decimal(n), 0, decimal(n).len() as int) == n,
    decreases n,
{
    let all = decimal(n);
    if n >= 10 {
        lemma_decimal_reads_back(n / 10);
        let head = decimal(n / 10);
        assert(all == head.push(digit_char(n % 10)));
        assert(all.subrange(0, head.len() as int) =~= head);
        lemma_number_value_of_prefix(all, head.len() as int, head.len() as int);
        assert(digit_value(all[all.len() - 1]) == n % 10);
        assert(number_value(all, 0, all.len() as int) == number_value(all, 0, all.len() - 1) * 10
            + digit_value(all[all.len() - 1]));
    } else {
        assert(digit_value(all[0]) == n);
        assert(number_value(all, 0, 0) == 0);
        assert(number_value(all, 0, 1) == number_value(all, 0, 0) * 10 + digit_value(all[0]));
    }
}

/// The number that digits spell depends only on those digits.
pub proof fn lemma_number_value_of_prefix(s: Seq<char>, m: int, to: int)
    requires
        0 <= to <= m <= s.len(),
    ensures
        number_value(s.subrange(0, m), 0, to) == number_value(s, 0, to),
    decreases to,
{
    if to > 0 {
        lemma_number_value_of_prefix(s, m, to - 1);
    }
}

/// Whether `c` is a blank.
pub fn is_blank_char(c: char) -> (b: bool)
    ensures
        b == is_blank(c),
{
    c == ' ' || c == '\t' || c == '\r' || c == '\n'
}

/// Whether `c` is a decimal digit.
pub fn is_digit_char(c: char) -> (b: bool)
    ensures
        b == is_digit(c),
{
    '0' <= c && c <= '9'
}

/// Skips the blanks at `i`.
pub fn read_blanks(s: &[char], i: usize) -> (j: usize)
    requires
        i <= s@.len(),
    ensures
        j == skip_blanks(s@, i as int),
        i <= j <= s@.len(),
{
    let mut j = i;
    while j < s.len() && is_blank_char(s[j])
        invariant
            i <= j <= s@.len(),
            skip_blanks(s@, i as int) == skip_blanks(s@, j as int),
        decreases s@.len() - j,
    {
        j += 1;
    }
    j
}

/// Reads an operator that is spelled at `i`.
pub fn read_operator(s: &[char], i: usize) -> (r: Option<(BinaryOp, usize)>)
    requires
        i <= s@.len(),
    ensures
        match r {
            Some((op, j)) => operator_at(s@, i as int) == Some((op, j as int)) && i < j <= s@.len(),
            None => operator_at(s@, i as int) is None,
        },
{
    let left = s.len() - i;
    if left >= 3 && s[i] == 'a' && s[i + 1] == 'n' && s[i + 2] == 'd' {
        Some((BinaryOp::And, i + 3))
    } else if left >= 1 && s[i] == '&' {
        Some((BinaryOp::And, i + 1))
    } else if left >= 2 && s[i] == 'o' && s[i + 1] == 'r' {
        Some((BinaryOp::Or, i + 2))
    } else if left >= 1 && s[i] == '|' {
        Some((BinaryOp::Or, i + 1))
    } else {
        None
    }
}

/// Reads an operator and the blanks around it.
pub fn read_spaced_operator(s: &[char], i: usize) -> (r: Option<(BinaryOp, usize)>)
    requires
        i <= s@.len(),
    ensures
        match r {
            Some((op, j)) => spaced_operator_at(s@, i as int) == Some((op, j as int)) && i < j
                <= s@.len(),
            None => spaced_operator_at(s@, i as int) is None,
        },
{
    let a = read_blanks(s, i);
    match read_operator(s, a) {
        Some((op, j)) => Some((op, read_blanks(s, j))),
        None => None,
    }
}

/// Reads the character `c` and the blanks around it.
pub fn read_spaced_char(s: &[char], i: usize, c: char) -> (r: Option<usize>)
    requires
        i <= s@.len(),
    ensures
        match r {
            Some(j) => spaced_char_at(s@, i as int, c) == Some(j as int) && i < j <= s@.len(),
            None => spaced_char_at(s@, i as int, c) is None,
        },
{
    let a = read_blanks(s, i);
    if a < s.len() && s[a] == c {
        Some(read_blanks(s, a + 1))
    } else {
        None
    }
}

/// Reads a number and the blanks around it.
pub fn read_number(s: &[char], i: usize) -> (r: Result<(u32, usize), FailureKind>)
    requires
        i <= s@.len(),
    ensures
        finds(r, number_at(s@, i as int)),
        r matches Ok((_, j)) ==> i < j <= s@.len(),
{
    let a = read_blanks(s, i);
    let mut b = a;
    let mut value: u64 = 0;
    let mut too_large = false;
    while b < s.len() && is_digit_char(s[b])
        invariant
            a <= b <= s@.len(),
            skip_digits(s@, a as int) == skip_digits(s@, b as int),
            !too_large ==> value == number_value(s@, a as int, b as int) && value <= u32::MAX,
            too_large ==> number_value(s@, a as int, b as int) > u32::MAX,
        decreases s@.len() - b,
    {
        if !too_large {
            let digit: u32 = s[b] as u32 - '0' as u32;
            value = value * 10 + digit as u64;
            if value > u32::MAX as u64 {
                too_large = true;
            }
        }
        b += 1;
    }
    if b == a {
        Err(FailureKind::Digit)
    } else if too_large {
        Err(FailureKind::TooLarge)
    } else {
        Ok((value as u32, read_blanks(s, b)))
    }
}

/// The operator of a range, for the word that is written before it.
pub fn range_operator_of(op: BinaryOp) -> (r: RangeOp)
    ensures
        r == range_operator(op),
{
    match op {
        BinaryOp::And => RangeOp::And,
        BinaryOp::Or => RangeOp::Or,
    }
}

/// Reads the operator between two atoms.
pub fn read_binary_operator(s: &[char], i: usize) -> (r: Result<(BinaryOp, usize), FailureKind>)
    requires
        i <= s@.len(),
    ensures
        finds(r, binary_operator_at(s@, i as int)),
        r matches Ok((_, j)) ==> i < j <= s@.len(),
{
    match read_spaced_operator(s, i) {
        Some(found) => Ok(found),
        None => Err(FailureKind::Tag),
    }
}

/// Reads the operator before a range, where one stands.
pub fn read_range_operator(s: &[char], i: usize) -> (r: (Option<RangeOp>, usize))
    requires
        i <= s@.len(),
    ensures
        range_operator_at(s@, i as int) == (r.0, r.1 as int),
        i <= r.1 <= s@.len(),
{
    match read_spaced_operator(s, i) {
        Some((op, j)) => (Some(range_operator_of(op)), j),
        None => (None, i),
    }
}

/// Reads a range.
pub fn read_range(s: &[char], i: usize) -> (r: Result<(Range, usize), FailureKind>)
    requires
        i <= s@.len(),
    ensures
        finds(r, range_at(s@, i as int)),
        r matches Ok((_, j)) ==> i < j <= s@.len(),
{
    let (written, j) = read_range_operator(s, i);
    let operator = match written {
        Some(op) => op,
        None => RangeOp::Or,
    };
    let (start, a) = match read_number(s, j) {
        Ok(found) => found,
        Err(kind) => { return Err(kind); },
    };
    let b = match read_spaced_char(s, a, '-') {
        Some(b) => b,
        None => { return Err(FailureKind::Char); },
    };
    let (end, c) = match read_number(s, b) {
        Ok(found) => found,
        Err(kind) => { return Err(kind); },
    };
    Ok((Range::new((start % 0x1_0000) as u16, (end % 0x1_0000) as u16, operator), c))
}

/// Reads an atom.
pub fn read_atom(s: &[char], i: usize) -> (r: Result<(Expr, usize), FailureKind>)
    requires
        i <= s@.len(),
    ensures
        finds(r, atom_at(s@, i as int)),
        r matches Ok((_, j)) ==> i < j <= s@.len(),
    decreases s@.len() - i, 2int,
{
    match read_parens(s, i) {
        Ok(found) => Ok(found),
        Err(FailureKind::TooLarge) => Err(FailureKind::TooLarge),
        Err(_) => match read_range(s, i) {
            Ok((range, j)) => Ok((Expr::Range(range), j)),
            Err(kind) => Err(kind),
        },
    }
}

/// Reads an expression in parentheses.
pub fn read_parens(s: &[char], i: usize) -> (r: Result<(Expr, usize), FailureKind>)
    requires
        i <= s@.len(),
    ensures
        finds(r, parens_at(s@, i as int)),
        r matches Ok((_, j)) ==> i < j <= s@.len(),
    decreases s@.len() - i, 1int,
{
    let a = match read_spaced_char(s, i, '(') {
        Some(a) => a,
        None => { return Err(FailureKind::Char); },
    };
    let (inner, b) = match read_expr(s, a) {
        Ok(found) => found,
        Err(kind) => { return Err(kind); },
    };
    match read_spaced_char(s, b, ')') {
        Some(c) => Ok((inner, c)),
        None => Err(FailureKind::Char),
    }
}

/// Reads an expression.
pub fn read_expr(s: &[char], i: usize) -> (r: Result<(Expr, usize), FailureKind>)
    requires
        i <= s@.len(),
    ensures
        finds(r, expr_at(s@, i as int)),
        r matches Ok((_, j)) ==> i < j <= s@.len(),
    decreases s@.len() - i, 3int,
{
    let (first, after_first) = match read_atom(s, i) {
        Ok(found) => found,
        Err(kind) => { return Err(kind); },
    };
    let mut left = first;
    let mut j = after_first;
    loop
        invariant
            i < j <= s@.len(),
            expr_at(s@, i as int) == chain_at(s@, j as int, left),
        decreases s@.len() - j,
    {
        let (op, after_op) = match read_spaced_operator(s, j) {
            Some(found) => found,
            None => { return Ok((left, j)); },
        };
        let (right, after_right) = match read_atom(s, after_op) {
            Ok(found) => found,
            Err(kind) => { return Err(kind); },
        };
        left = Expr::Binary { op, left: Box::new(left), right: Box::new(right) };
        j = after_right;
    }
}

/// Reads the MR number behind an expression.
pub fn read_mr(s: &[char], i: usize) -> (r: Result<(u16, usize), FailureKind>)
    requires
        i <= s@.len(),
    ensures
        finds(r, mr_at(s@, i as int)),
        r matches Ok((_, j)) ==> i < j <= s@.len(),
{
    if i < s.len() && s[i] == ',' {
        match read_number(s, i + 1) {
            Ok((n, j)) => Ok(((n % 0x1_0000) as u16, j)),
            Err(kind) => Err(kind),
        }
    } else {
        Err(FailureKind::Char)
    }
}

/// Reads an expression and the MR number behind it, where there is one.
pub fn read_expr_with_mr(s: &[char], i: usize) -> (r: Result<(Expr, usize), FailureKind>)
    requires
        i <= s@.len(),
    ensures
        finds(r, expr_with_mr_at(s@, i as int)),
        r matches Ok((_, j)) ==> i < j <= s@.len(),
{
    let (expr, j) = match read_expr(s, i) {
        Ok(found) => found,
        Err(kind) => { return Err(kind); },
    };
    match read_mr(s, j) {
        Ok((mr, k)) => Ok((Expr::WithMr { ddr_expr: Box::new(expr), mr }, k)),
        Err(FailureKind::TooLarge) => Err(FailureKind::TooLarge),
        Err(_) => Ok((expr, j)),
    }
}

} // verus!

//! Every condition has a text: its compact text, without blanks and with
//! the operators as symbols, reads back as the condition itself.

use vstd::prelude::*;
use crate::conditions::ast::{BinaryOp, Expr, Range, RangeOp};
use crate::conditions::error::{FailureKind, ParseErrorView};
use crate::conditions::grammar::{
    atom_at, chain_at, expr_at, expr_with_mr_at, is_blank, is_digit, lemma_decimal_reads_back,
    lemma_number_value_of_prefix, low_16, mr_at, number_at, number_value, operator_at, parens_at,
    range_at, skip_blanks, skip_digits, spaced_char_at, spaced_operator_at,
};
use crate::conditions::parser::{
    closes_too_early, ends_with, has_empty_parens, last_word, lemma_parsed_shape, paren_balance,
    paren_depth, parsed, trailing_operator, verdict,
};
use crate::text::{decimal, is_whitespace, lemma_trim_keeps, trim_end};

verus! {

/// The symbol of an operator.
pub open spec fn operator_symbol(op: BinaryOp) -> char {
    match op {
        BinaryOp::And => '&',
        BinaryOp::Or => '|',
    }
}

/// The compact text of a range: `1-3`, and `&1-3` where its operator is `And`.
pub open spec fn compact_range(range: Range) -> Seq<char> {
    let numbers = decimal(range.start as nat) + seq!['-'] + decimal(range.end as nat);
    match range.operator {
        RangeOp::And => seq!['&'] + numbers,
        RangeOp::Or => numbers,
    }
}

/// The compact text of a condition without MR number: a range as it is, and
/// the two sides of an operator each in parentheses, as in `(1-3)&(4-6)`.
pub open spec fn compact_plain(expr: Expr) -> Seq<char>
    decreases expr,
{
    match expr {
        Expr::Range(range) => compact_range(range),
        Expr::Binary { op, left, right } => seq!['('] + compact_plain(*left) + seq![
            ')',
            operator_symbol(op),
            '(',
        ] + compact_plain(*right) + seq![')'],
        Expr::WithMr { ddr_expr, .. } => compact_plain(*ddr_expr),
    }
}

/// The compact text of a condition; an MR number follows behind a comma.
pub open spec fn compact(expr: Expr) -> Seq<char> {
    match expr {
        Expr::WithMr { ddr_expr, mr } => compact_plain(*ddr_expr) + seq![','] + decimal(mr as nat),
        _ => compact_plain(expr),
    }
}

/// `word` stands in `s` at `i`.
pub open spec fn stands_at(s: Seq<char>, i: int, word: Seq<char>) -> bool {
    0 <= i && i + word.len() <= s.len() && s.subrange(i, i + word.len()) == word
}

/// At `i` the text `s` ends, or a `)` or a comma stands there: what may
/// follow a condition that is written compactly.
pub open spec fn closes_at(s: Seq<char>, i: int) -> bool {
    i == s.len() || (0 <= i < s.len() && (s[i] == ')' || s[i] == ','))
}

/// Where a text stands, its two parts stand one behind the other.
proof fn lemma_stands_at_parts(s: Seq<char>, i: int, a: Seq<char>, b: Seq<char>)
    requires
        stands_at(s, i, a + b),
    ensures
        stands_at(s, i, a),
        stands_at(s, i + a.len(), b),
{
    let whole = s.subrange(i, i + (a + b).len());
    assert(s.subrange(i, i + a.len()) =~= whole.subrange(0, a.len() as int));
    assert(whole.subrange(0, a.len() as int) =~= a);
    assert(s.subrange(i + a.len(), i + a.len() + b.len()) =~= whole.subrange(
        a.len() as int,
        (a + b).len() as int,
    ));
    assert(whole.subrange(a.len() as int, (a + b).len() as int) =~= b);
}

/// Where a text stands, each of its characters stands.
proof fn lemma_stands_at_char(s: Seq<char>, i: int, word: Seq<char>, k: int)
    requires
        stands_at(s, i, word),
        0 <= k < word.len(),
    ensures
        s[i + k] == word[k],
{
    assert(s.subrange(i, i + word.len())[k] == s[i + k]);
}

/// Skipping digits passes over a run of digits and stops behind it.
proof fn lemma_skip_digits_run(s: Seq<char>, i: int, end: int)
    requires
        0 <= i <= end <= s.len(),
        forall|k: int| i <= k < end ==> is_digit(#[trigger] s[k]),
        end == s.len() || !is_digit(s[end]),
    ensures
        skip_digits(s, i) == end,
    decreases end - i,
{
    if i < end {
        lemma_skip_digits_run(s, i + 1, end);
    }
}

/// The number that digits spell is the same wherever they stand.
proof fn lemma_number_value_of_part(s: Seq<char>, i: int, end: int)
    requires
        0 <= i <= end <= s.len(),
    ensures
        number_value(s, i, end) == number_value(s.subrange(i, end), 0, end - i),
    decreases end - i,
{
    if i < end {
        lemma_number_value_of_part(s, i, end - 1);
        let part = s.subrange(i, end);
        let shorter = s.subrange(i, end - 1);
        assert(part.subrange(0, end - 1 - i) =~= shorter);
        lemma_number_value_of_prefix(part, end - 1 - i, end - 1 - i);
    }
}

/// A number that stands at `i` in base ten, with no digit and no blank
/// behind it, is read as itself and ends where its digits end.
proof fn lemma_number_is_read(s: Seq<char>, i: int, n: nat)
    requires
        n <= u32::MAX,
        stands_at(s, i, decimal(n)),
        i + decimal(n).len() == s.len() || (!is_digit(s[i + decimal(n).len()]) && !is_blank(
            s[i + decimal(n).len()],
        )),
    ensures
        number_at(s, i) == Ok::<(u32, int), FailureKind>((n as u32, i + decimal(n).len())),
{
    let text = decimal(n);
    let end = i + text.len();
    lemma_decimal_reads_back(n);
    assert forall|k: int| i <= k < end implies is_digit(#[trigger] s[k]) by {
        lemma_stands_at_char(s, i, text, k - i);
    }
    assert(!is_blank(s[i]));
    assert(skip_blanks(s, i) == i);
    lemma_skip_digits_run(s, i, end);
    lemma_number_value_of_part(s, i, end);
    assert(skip_blanks(s, end) == end);
}

/// The compact text of a condition is not empty, starts with a digit, `&`
/// or `(`, and ends with a digit or `)`.
proof fn lemma_compact_ends(expr: Expr)
    ensures
        compact_plain(expr).len() > 0,
        is_digit(compact_plain(expr)[0]) || compact_plain(expr)[0] == '&' || compact_plain(
            expr,
        )[0] == '(',
        is_digit(compact_plain(expr).last()) || compact_plain(expr).last() == ')',
    decreases expr,
{
    match expr {
        Expr::Range(range) => {
            lemma_decimal_reads_back(range.start as nat);
            lemma_decimal_reads_back(range.end as nat);
            let first = decimal(range.start as nat);
            let second = decimal(range.end as nat);
            let numbers = first + seq!['-'] + second;
            assert(numbers[0] == first[0]);
            assert(numbers.last() == second.last());
        },
        Expr::Binary { .. } => {},
        Expr::WithMr { ddr_expr, .. } => {
            lemma_compact_ends(*ddr_expr);
        },
    }
}

/// A range that stands at `i` in its compact text, with the end of the text,
/// a `)` or a comma behind it, is read as itself; and no parenthesis is read
/// in its place.
proof fn lemma_range_is_read(s: Seq<char>, i: int, range: Range)
    requires
        stands_at(s, i, compact_range(range)),
        closes_at(s, i + compact_range(range).len()),
    ensures
        range_at(s, i) == Ok::<(Range, int), FailureKind>((range, i + compact_range(range).len())),
        parens_at(s, i) == Err::<(Expr, int), FailureKind>(FailureKind::Char),
{
    let first = decimal(range.start as nat);
    let second = decimal(range.end as nat);
    let numbers = first + seq!['-'] + second;
    lemma_decimal_reads_back(range.start as nat);
    lemma_decimal_reads_back(range.end as nat);
    let j = if range.operator is And {
        i + 1
    } else {
        i
    };
    if range.operator is And {
        lemma_stands_at_parts(s, i, seq!['&'], numbers);
        lemma_stands_at_char(s, i, seq!['&'], 0);
    }
    assert(stands_at(s, j, numbers));
    lemma_stands_at_parts(s, j, first + seq!['-'], second);
    lemma_stands_at_parts(s, j, first, seq!['-']);
    let dash = j + first.len();
    lemma_stands_at_char(s, dash, seq!['-'], 0);
    lemma_stands_at_char(s, j, first, 0);
    lemma_stands_at_char(s, dash + 1, second, 0);
    assert(s[j] == first[0]);
    assert(s[dash] == '-');
    assert(s[dash + 1] == second[0]);
    let end = dash + 1 + second.len();
    assert(end == i + compact_range(range).len());
    // the operator, or none
    assert(skip_blanks(s, i) == i);
    assert(skip_blanks(s, j) == j);
    if range.operator is And {
        assert(operator_at(s, i) == Some((BinaryOp::And, i + 1)));
    } else {
        assert(operator_at(s, i) is None);
    }
    // the two numbers and the dash between them
    lemma_number_is_read(s, j, range.start as nat);
    assert(skip_blanks(s, dash) == dash);
    assert(skip_blanks(s, dash + 1) == dash + 1);
    assert(spaced_char_at(s, dash, '-') == Some(dash + 1));
    lemma_number_is_read(s, dash + 1, range.end as nat);
    assert(low_16(range.start as u32) == range.start);
    assert(low_16(range.end as u32) == range.end);
    assert(spaced_char_at(s, i, '(') is None);
}

/// Behind a condition that is written compactly the chain of operators ends.
proof fn lemma_chain_ends(s: Seq<char>, i: int, left: Expr)
    requires
        0 <= i <= s.len(),
        closes_at(s, i),
    ensures
        chain_at(s, i, left) == Ok::<(Expr, int), FailureKind>((left, i)),
{
    assert(skip_blanks(s, i) == i);
    assert(operator_at(s, i) is None);
}

/// Where the parts of the compact text of a `Binary` stand.
proof fn lemma_binary_layout(s: Seq<char>, i: int, op: BinaryOp, l: Seq<char>, r: Seq<char>)
    requires
        stands_at(s, i, seq!['('] + l + seq![')', operator_symbol(op), '('] + r + seq![')']),
    ensures
        s[i] == '(',
        stands_at(s, i + 1, l),
        s[i + 1 + l.len()] == ')',
        s[i + 2 + l.len()] == operator_symbol(op),
        s[i + 3 + l.len()] == '(',
        stands_at(s, i + 4 + l.len(), r),
        s[i + 4 + l.len() + r.len()] == ')',
        i + 5 + l.len() + r.len() <= s.len(),
{
    let middle = seq![')', operator_symbol(op), '('];
    lemma_stands_at_parts(s, i, seq!['('] + l + middle + r, seq![')']);
    lemma_stands_at_parts(s, i, seq!['('] + l + middle, r);
    lemma_stands_at_parts(s, i, seq!['('] + l, middle);
    lemma_stands_at_parts(s, i, seq!['('], l);
    let at_middle = i + 1 + l.len();
    lemma_stands_at_char(s, i, seq!['('], 0);
    lemma_stands_at_char(s, at_middle, middle, 0);
    lemma_stands_at_char(s, at_middle, middle, 1);
    lemma_stands_at_char(s, at_middle, middle, 2);
    lemma_stands_at_char(s, at_middle + 3 + r.len(), seq![')'], 0);
}

/// An expression between `(` and `)`, without blanks around them, is an atom.
proof fn lemma_parens_are_read(s: Seq<char>, i: int, inner: Expr, close: int)
    requires
        0 <= i,
        i + 1 < close < s.len(),
        s[i] == '(',
        !is_blank(s[i + 1]),
        expr_at(s, i + 1) == Ok::<(Expr, int), FailureKind>((inner, close)),
        s[close] == ')',
        close + 1 == s.len() || !is_blank(s[close + 1]),
    ensures
        atom_at(s, i) == Ok::<(Expr, int), FailureKind>((inner, close + 1)),
{
    assert(skip_blanks(s, i) == i);
    assert(skip_blanks(s, i + 1) == i + 1);
    assert(spaced_char_at(s, i, '(') == Some(i + 1));
    assert(skip_blanks(s, close) == close);
    assert(skip_blanks(s, close + 1) == close + 1);
    assert(spaced_char_at(s, close, ')') == Some(close + 1));
    assert(parens_at(s, i) == Ok::<(Expr, int), FailureKind>((inner, close + 1)));
}

/// An operator symbol and an atom behind it, with nothing to follow, make a
/// `Binary` of what stands on the left.
proof fn lemma_chain_of_one(s: Seq<char>, i: int, left: Expr, op: BinaryOp, right: Expr, end: int)
    requires
        0 <= i,
        i + 1 < end <= s.len(),
        s[i] == operator_symbol(op),
        !is_blank(s[i + 1]),
        atom_at(s, i + 1) == Ok::<(Expr, int), FailureKind>((right, end)),
        closes_at(s, end),
    ensures
        chain_at(s, i, left) == Ok::<(Expr, int), FailureKind>(
            (Expr::Binary { op, left: Box::new(left), right: Box::new(right) }, end),
        ),
{
    assert(skip_blanks(s, i) == i);
    assert(skip_blanks(s, i + 1) == i + 1);
    assert(operator_at(s, i) == Some((op, i + 1)));
    assert(spaced_operator_at(s, i) == Some((op, i + 1)));
    lemma_chain_ends(
        s,
        end,
        Expr::Binary { op, left: Box::new(left), right: Box::new(right) },
    );
}

/// A condition without MR number that stands at `i` in its compact text,
/// with the end of the text, a `)` or a comma behind it, is read as itself.
pub proof fn lemma_plain_is_read(s: Seq<char>, i: int, expr: Expr)
    requires
        expr.is_plain(),
        stands_at(s, i, compact_plain(expr)),
        closes_at(s, i + compact_plain(expr).len()),
    ensures
        expr_at(s, i) == Ok::<(Expr, int), FailureKind>((expr, i + compact_plain(expr).len())),
    decreases expr,
{
    let end = i + compact_plain(expr).len();
    lemma_compact_ends(expr);
    match expr {
        Expr::Range(range) => {
            lemma_range_is_read(s, i, range);
            assert(atom_at(s, i) == Ok::<(Expr, int), FailureKind>((expr, end)));
            lemma_chain_ends(s, end, expr);
        },
        Expr::Binary { op, left, right } => {
            let l = compact_plain(*left);
            let r = compact_plain(*right);
            lemma_compact_ends(*left);
            lemma_compact_ends(*right);
            lemma_binary_layout(s, i, op, l, r);
            let at_left = i + 1;
            let at_middle = at_left + l.len();
            let at_right = at_middle + 3;
            let at_close = at_right + r.len();
            assert(end == at_close + 1);
            lemma_stands_at_char(s, at_left, l, 0);
            lemma_stands_at_char(s, at_right, r, 0);
            lemma_plain_is_read(s, at_left, *left);
            lemma_parens_are_read(s, i, *left, at_middle);
            lemma_plain_is_read(s, at_right, *right);
            lemma_parens_are_read(s, at_middle + 2, *right, at_close);
            lemma_chain_of_one(s, at_middle + 1, *left, op, *right, end);
        },
        Expr::WithMr { .. } => {},
    }
}

/// Every `)` of `s` closes a `(` before it, and none is left open.
pub open spec fn well_nested(s: Seq<char>) -> bool {
    &&& forall|n: int| 0 <= n <= s.len() ==> #[trigger] paren_depth(s, n) >= 0
    &&& paren_depth(s, s.len() as int) == 0
}

/// The depth within `a + b` is the depth within `a`, and behind `a` the
/// depth of `a` plus the depth within `b`.
proof fn lemma_depth_of_parts(a: Seq<char>, b: Seq<char>, n: int)
    requires
        0 <= n <= a.len() + b.len(),
    ensures
        paren_depth(a + b, n) == if n <= a.len() {
            paren_depth(a, n)
        } else {
            paren_depth(a, a.len() as int) + paren_depth(b, n - a.len())
        },
    decreases n,
{
    if n > 0 {
        lemma_depth_of_parts(a, b, n - 1);
        if n <= a.len() {
            assert((a + b)[n - 1] == a[n - 1]);
        } else {
            assert((a + b)[n - 1] == b[n - 1 - a.len()]);
            assert(paren_depth(b, 0) == 0);
        }
    }
}

/// Two texts whose parentheses pair up make one whose parentheses pair up.
proof fn lemma_well_nested_parts(a: Seq<char>, b: Seq<char>)
    requires
        well_nested(a),
        well_nested(b),
    ensures
        well_nested(a + b),
{
    assert forall|n: int| 0 <= n <= (a + b).len() implies #[trigger] paren_depth(a + b, n)
        >= 0 by {
        lemma_depth_of_parts(a, b, n);
        if n > a.len() {
            assert(paren_depth(b, n - a.len()) >= 0);
        }
    }
    lemma_depth_of_parts(a, b, (a + b).len() as int);
}

/// A text whose parentheses pair up may be put in parentheses.
proof fn lemma_well_nested_in_parens(s: Seq<char>)
    requires
        well_nested(s),
    ensures
        well_nested(seq!['('] + s + seq![')']),
{
    let open = seq!['('];
    let close = seq![')'];
    let whole = open + s + close;
    assert(paren_depth(open, 0) == 0);
    assert(paren_depth(open, 1) == 1);
    assert(paren_depth(close, 0) == 0);
    assert(paren_depth(close, 1) == -1);
    assert forall|n: int| 0 <= n <= whole.len() implies #[trigger] paren_depth(whole, n) >= 0 by {
        lemma_depth_of_parts(open + s, close, n);
        if n <= (open + s).len() {
            lemma_depth_of_parts(open, s, n);
            if n > 1 {
                assert(paren_depth(s, n - 1) >= 0);
            }
        } else {
            lemma_depth_of_parts(open, s, (open + s).len() as int);
        }
    }
    lemma_depth_of_parts(open + s, close, whole.len() as int);
    lemma_depth_of_parts(open, s, (open + s).len() as int);
}

/// Without parentheses the depth is zero throughout.
proof fn lemma_no_parens_depth(s: Seq<char>, n: int)
    requires
        0 <= n <= s.len(),
        forall|k: int| 0 <= k < s.len() ==> #[trigger] s[k] != '(' && s[k] != ')',
    ensures
        paren_depth(s, n) == 0,
    decreases n,
{
    if n > 0 {
        lemma_no_parens_depth(s, n - 1);
    }
}

/// A text without parentheses has none to pair up and none that is empty.
proof fn lemma_well_nested_without_parens(s: Seq<char>)
    requires
        forall|k: int| 0 <= k < s.len() ==> #[trigger] s[k] != '(' && s[k] != ')',
    ensures
        well_nested(s),
        !has_empty_parens(s),
{
    assert forall|n: int| 0 <= n <= s.len() implies #[trigger] paren_depth(s, n) >= 0 by {
        lemma_no_parens_depth(s, n);
    }
    lemma_no_parens_depth(s, s.len() as int);
}

/// Joining two texts makes no `()` unless the first ends with `(` and the
/// second starts with `)`.
proof fn lemma_no_empty_parens_parts(a: Seq<char>, b: Seq<char>)
    requires
        !has_empty_parens(a),
        !has_empty_parens(b),
        a.len() > 0 && b.len() > 0 ==> !(a.last() == '(' && b[0] == ')'),
    ensures
        !has_empty_parens(a + b),
{
    let s = a + b;
    assert forall|i: int| 0 <= i && i + 1 < s.len() implies !(#[trigger] s[i] == '(' && s[i + 1]
        == ')') by {
        if i + 1 < a.len() {
            assert(s[i] == a[i] && s[i + 1] == a[i + 1]);
            assert(!(a[i] == '(' && a[i + 1] == ')'));
        } else if i >= a.len() {
            assert(s[i] == b[i - a.len()] && s[i + 1] == b[i + 1 - a.len()]);
            assert(!(b[i - a.len()] == '(' && b[i - a.len() + 1] == ')'));
        } else {
            assert(s[i] == a.last() && s[i + 1] == b[0]);
        }
    }
}

/// The text of a number holds no parenthesis.
proof fn lemma_decimal_without_parens(n: nat)
    ensures
        forall|k: int| 0 <= k < decimal(n).len() ==> #[trigger] decimal(n)[k] != '(' && decimal(
            n,
        )[k] != ')',
{
    lemma_decimal_reads_back(n);
    assert forall|k: int| 0 <= k < decimal(n).len() implies #[trigger] decimal(n)[k] != '('
        && decimal(n)[k] != ')' by {
        assert(is_digit(decimal(n)[k]));
    }
}

/// The parentheses of a compact text pair up, and none of them is empty.
proof fn lemma_compact_parens(expr: Expr)
    ensures
        well_nested(compact_plain(expr)),
        !has_empty_parens(compact_plain(expr)),
    decreases expr,
{
    match expr {
        Expr::Range(range) => {
            let text = compact_range(range);
            lemma_decimal_without_parens(range.start as nat);
            lemma_decimal_without_parens(range.end as nat);
            let first = decimal(range.start as nat);
            let second = decimal(range.end as nat);
            assert forall|k: int| 0 <= k < text.len() implies #[trigger] text[k] != '(' && text[k]
                != ')' by {
                let numbers = first + seq!['-'] + second;
                let j = if range.operator is And {
                    k - 1
                } else {
                    k
                };
                if j >= 0 {
                    assert(text[k] == numbers[j]);
                    if j < first.len() {
                        assert(numbers[j] == first[j]);
                    } else if j > first.len() {
                        assert(numbers[j] == second[j - first.len() - 1]);
                    }
                }
            }
            lemma_well_nested_without_parens(text);
        },
        Expr::Binary { op, left, right } => {
            let l = compact_plain(*left);
            let r = compact_plain(*right);
            lemma_compact_parens(*left);
            lemma_compact_parens(*right);
            lemma_compact_ends(*left);
            lemma_compact_ends(*right);
            let symbol = seq![operator_symbol(op)];
            let left_side = seq!['('] + l + seq![')'];
            let right_side = seq!['('] + r + seq![')'];
            assert(compact_plain(expr) =~= left_side + symbol + right_side);
            // the parentheses pair up
            lemma_well_nested_in_parens(l);
            lemma_well_nested_in_parens(r);
            lemma_well_nested_without_parens(symbol);
            lemma_well_nested_parts(left_side, symbol);
            lemma_well_nested_parts(left_side + symbol, right_side);
            // and none of them is empty
            assert(!has_empty_parens(seq![')']));
            assert(!has_empty_parens(seq!['(']));
            lemma_no_empty_parens_parts(seq!['('], l);
            lemma_no_empty_parens_parts(seq!['('] + l, seq![')']);
            lemma_no_empty_parens_parts(seq!['('], r);
            lemma_no_empty_parens_parts(seq!['('] + r, seq![')']);
            lemma_no_empty_parens_parts(left_side, symbol);
            lemma_no_empty_parens_parts(left_side + symbol, right_side);
        },
        Expr::WithMr { ddr_expr, .. } => {
            lemma_compact_parens(*ddr_expr);
        },
    }
}

/// A text that ends with a digit or with `)` leaves no operator hanging.
proof fn lemma_no_operator_hangs(s: Seq<char>)
    requires
        s.len() > 0,
        is_digit(s.last()) || s.last() == ')',
        trim_end(s) == s,
    ensures
        trailing_operator(s) is None,
{
    reveal_strlit("and");
    reveal_strlit("or");
    reveal_strlit("&");
    reveal_strlit("|");
    let n = s.len() as int;
    if ends_with(s, "and"@) {
        assert(s.subrange(n - 3, n)[2] == s[n - 1]);
    }
    if ends_with(s, "or"@) {
        assert(s.subrange(n - 2, n)[1] == s[n - 1]);
    }
    if ends_with(s, "&"@) {
        assert(s.subrange(n - 1, n)[0] == s[n - 1]);
    }
    if ends_with(s, "|"@) {
        assert(s.subrange(n - 1, n)[0] == s[n - 1]);
    }
    assert(last_word(s) is None);
}

/// The compact text of a condition is read by the grammar as the condition,
/// from start to end.
proof fn lemma_compact_is_an_expression(expr: Expr)
    requires
        expr.mr_only_outermost(),
    ensures
        expr_with_mr_at(compact(expr), 0) == Ok::<(Expr, int), FailureKind>(
            (expr, compact(expr).len() as int),
        ),
{
    let text = compact(expr);
    match expr {
        Expr::WithMr { ddr_expr, mr } => {
            let plain = compact_plain(*ddr_expr);
            let n = plain.len() as int;
            let number = decimal(mr as nat);
            assert(text.subrange(0, n) =~= plain);
            assert(text[n] == ',');
            lemma_plain_is_read(text, 0, *ddr_expr);
            assert(text.subrange(n + 1, n + 1 + number.len()) =~= number);
            lemma_number_is_read(text, n + 1, mr as nat);
            assert(low_16(mr as u32) == mr);
            assert(mr_at(text, n) == Ok::<(u16, int), FailureKind>((mr, text.len() as int)));
        },
        _ => {
            let n = text.len() as int;
            assert(text.subrange(0, n) =~= text);
            lemma_plain_is_read(text, 0, expr);
            assert(mr_at(text, n) == Err::<(u16, int), FailureKind>(FailureKind::Char));
        },
    }
}

/// The compact text of a condition starts and ends with text, ends with a
/// digit or `)`, and has parentheses that pair up, none of them empty.
proof fn lemma_compact_shape(expr: Expr)
    ensures
        compact(expr).len() > 0,
        is_digit(compact(expr)[0]) || compact(expr)[0] == '&' || compact(expr)[0] == '(',
        is_digit(compact(expr).last()) || compact(expr).last() == ')',
        well_nested(compact(expr)),
        !has_empty_parens(compact(expr)),
{
    match expr {
        Expr::WithMr { ddr_expr, mr } => {
            let plain = compact_plain(*ddr_expr);
            let number = decimal(mr as nat);
            let behind = seq![','] + number;
            let text = compact(expr);
            lemma_compact_ends(*ddr_expr);
            lemma_compact_parens(*ddr_expr);
            assert(text =~= plain + behind);
            lemma_decimal_reads_back(mr as nat);
            lemma_decimal_without_parens(mr as nat);
            assert(behind.last() == number.last());
            assert(text.last() == behind.last());
            assert(text[0] == plain[0]);
            assert forall|k: int| 0 <= k < behind.len() implies #[trigger] behind[k] != '('
                && behind[k] != ')' by {
                if k > 0 {
                    assert(behind[k] == number[k - 1]);
                }
            }
            lemma_well_nested_without_parens(behind);
            lemma_well_nested_parts(plain, behind);
            lemma_no_empty_parens_parts(plain, behind);
        },
        _ => {
            lemma_compact_ends(expr);
            lemma_compact_parens(expr);
        },
    }
}

/// What a text is read as once the checks before the grammar have found
/// nothing: what the grammar makes of it.
proof fn lemma_sound_text_goes_to_the_grammar(text: Seq<char>)
    requires
        text.len() > 0,
        !is_whitespace(text[0]),
        is_digit(text.last()) || text.last() == ')',
        well_nested(text),
        !has_empty_parens(text),
    ensures
        parsed(text) == verdict(text, expr_with_mr_at(text, 0)),
{
    lemma_trim_keeps(text);
    lemma_no_operator_hangs(text);
    assert(!closes_too_early(text));
    assert(paren_balance(text) is Ok);
}

/// Every condition can be written down: a condition that has its MR number,
/// if any, at the root, and that is no single range running backwards, is
/// what its compact text is read as.
pub proof fn lemma_compact_is_read(expr: Expr)
    requires
        expr.mr_only_outermost(),
        expr matches Expr::Range(range) ==> range.is_ordered(),
    ensures
        parsed(compact(expr)) == Ok::<Expr, ParseErrorView>(expr),
{
    lemma_compact_shape(expr);
    lemma_compact_is_an_expression(expr);
    lemma_sound_text_goes_to_the_grammar(compact(expr));
}

/// The conditions that some text is read as are exactly those that have
/// their MR number, if any, at the root and are no single range running
/// backwards.
pub proof fn lemma_what_can_be_read(expr: Expr)
    ensures
        (exists|input: Seq<char>| #[trigger] parsed(input) == Ok::<Expr, ParseErrorView>(expr))
            <==> expr.mr_only_outermost() && (expr matches Expr::Range(range)
            ==> range.is_ordered()),
{
    if expr.mr_only_outermost() && (expr matches Expr::Range(range) ==> range.is_ordered()) {
        lemma_compact_is_read(expr);
    }
    if exists|input: Seq<char>| #[trigger] parsed(input) == Ok::<Expr, ParseErrorView>(expr) {
        let input = choose|input: Seq<char>| #[trigger]
            parsed(input) == Ok::<Expr, ParseErrorView>(expr);
        lemma_parsed_shape(input);
    }
}

} // verus!

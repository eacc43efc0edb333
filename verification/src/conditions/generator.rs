//! From a syntax tree to the long form of the condition, in which every
//! number of a range is written out: `ddr(D1) or ddr(D2) or ddr(D3)`.

use vstd::prelude::*;
use vstd::string::*;
use crate::conditions::ast::{BinaryOp, Expr, Range, RangeOp};
use crate::text::{decimal, decimal_string};

verus! {

/// How the long form is written.
#[derive(Debug, Clone)]
pub struct GenerateOptions {
    /// What stands before each number.
    pub prefix: String,
    /// What stands behind each number.
    pub suffix: String,
    /// Kept for callers that set it; the operators are always written with
    /// one space on either side.
    pub separator: String,
    /// Whether the operators are written `&` and `|` in place of `and` and `or`.
    pub use_symbols: bool,
}

/// [`GenerateOptions`] with its texts as sequences of characters.
pub struct GenerateOptionsView {
    pub prefix: Seq<char>,
    pub suffix: Seq<char>,
    pub separator: Seq<char>,
    pub use_symbols: bool,
}

impl View for GenerateOptions {
    type V = GenerateOptionsView;

    open spec fn view(&self) -> GenerateOptionsView {
        GenerateOptionsView {
            prefix: self.prefix@,
            suffix: self.suffix@,
            separator: self.separator@,
            use_symbols: self.use_symbols,
        }
    }
}

/// The options that [`to_ddr_string`] writes with: `ddr(D` before each
/// number, `)` behind it, and the operators as words.
pub open spec fn default_options() -> GenerateOptionsView {
    GenerateOptionsView {
        prefix: "ddr(D"@,
        suffix: ")"@,
        separator: " "@,
        use_symbols: false,
    }
}

impl Default for GenerateOptions {
    fn default() -> (r: GenerateOptions)
        ensures
            r@ == default_options(),
    {
        GenerateOptions {
            prefix: "ddr(D".to_owned(),
            suffix: ")".to_owned(),
            separator: " ".to_owned(),
            use_symbols: false,
        }
    }
}

/// How an operator is written: as a word, or as a symbol.
pub open spec fn operator_text(and: bool, use_symbols: bool) -> Seq<char> {
    if and {
        if use_symbols {
            "&"@
        } else {
            "and"@
        }
    } else {
        if use_symbols {
            "|"@
        } else {
            "or"@
        }
    }
}

/// An operator with one space on either side.
pub open spec fn joiner(and: bool, use_symbols: bool) -> Seq<char> {
    " "@ + operator_text(and, use_symbols) + " "@
}

/// One number of a range: the prefix, the number in base ten, the suffix.
pub open spec fn item_text(prefix: Seq<char>, suffix: Seq<char>, n: nat) -> Seq<char> {
    prefix + decimal(n) + suffix
}

/// The numbers from `start` to `end`, each written as an item, with `between`
/// between one and the next. Nothing where `end` is below `start`.
pub open spec fn items_text(
    prefix: Seq<char>,
    suffix: Seq<char>,
    between: Seq<char>,
    start: nat,
    end: int,
) -> Seq<char>
    decreases end - start,
{
    if end < start {
        Seq::empty()
    } else if end == start {
        item_text(prefix, suffix, start)
    } else {
        items_text(prefix, suffix, between, start, end - 1) + between + item_text(
            prefix,
            suffix,
            end as nat,
        )
    }
}

/// The long form of a range: its numbers, joined by its own operator.
pub open spec fn range_text(range: Range, options: GenerateOptionsView) -> Seq<char> {
    items_text(
        options.prefix,
        options.suffix,
        joiner(range.operator is And, options.use_symbols),
        range.start as nat,
        range.end as int,
    )
}

/// The long form of a condition.
///
/// Both sides of a `Binary` stand in parentheses, whatever they are. An MR
/// number is joined with the word `and`, whatever the options say.
pub open spec fn expr_text(expr: Expr, options: GenerateOptionsView) -> Seq<char>
    decreases expr,
{
    match expr {
        Expr::Range(range) => range_text(range, options),
        Expr::Binary { op, left, right } => "("@ + expr_text(*left, options) + ")"@ + joiner(
            op is And,
            options.use_symbols,
        ) + "("@ + expr_text(*right, options) + ")"@,
        Expr::WithMr { ddr_expr, mr } => "("@ + expr_text(*ddr_expr, options) + ") and mr(G"@
            + decimal(mr as nat) + ")"@,
    }
}

/// Writing is deterministic: whatever is written for the same condition
/// under the same options is the same text. With [`default_options`] this
/// speaks of [`to_ddr_string`].
pub proof fn lemma_same_condition_same_text(
    expr: Expr,
    options: GenerateOptionsView,
    first: Seq<char>,
    second: Seq<char>,
)
    requires
        first == expr_text(expr, options),
        second == expr_text(expr, options),
    ensures
        first == second,
{
}

/// An operator as it is written under `use_symbols`.
fn operator_str(and: bool, use_symbols: bool) -> (r: &'static str)
    ensures
        r@ == operator_text(and, use_symbols),
{
    if and {
        if use_symbols {
            "&"
        } else {
            "and"
        }
    } else {
        if use_symbols {
            "|"
        } else {
            "or"
        }
    }
}

/// An operator with one space on either side.
fn joiner_string(and: bool, use_symbols: bool) -> (r: String)
    ensures
        r@ == joiner(and, use_symbols),
{
    let mut r = " ".to_owned();
    r.append(operator_str(and, use_symbols));
    r.append(" ");
    r
}

/// Writes out a range.
pub fn generate_range(range: &Range, options: &GenerateOptions) -> (r: String)
    ensures
        r@ == range_text(*range, options@),
{
    let between = joiner_string(
        match range.operator {
            RangeOp::And => true,
            RangeOp::Or => false,
        },
        options.use_symbols,
    );
    let start: u32 = range.start as u32;
    let end: u32 = range.end as u32;
    let mut r = String::new();
    let mut n: u32 = start;
    while n <= end
        invariant
            start <= n <= end + 1 || (end < start && n == start),
            end <= u16::MAX,
            r@ == items_text(options.prefix@, options.suffix@, between@, start as nat, n - 1),
        decreases end + 1 - n,
    {
        let ghost before = r@;
        if n > start {
            r.append(between.as_str());
        }
        r.append(options.prefix.as_str());
        r.append(decimal_string(n as u64).as_str());
        r.append(options.suffix.as_str());
        proof {
            let item = item_text(options.prefix@, options.suffix@, n as nat);
            if n > start {
                assert(r@ =~= before + between@ + item);
            } else {
                assert(r@ =~= item);
            }
        }
        n += 1;
    }
    r
}

/// Writes out a condition under the default options.
pub fn to_ddr_string(expr: &Expr) -> (r: String)
    ensures
        r@ == expr_text(*expr, default_options()),
{
    to_ddr_string_with_options(expr, &GenerateOptions::default())
}

/// Writes out a condition.
pub fn to_ddr_string_with_options(expr: &Expr, options: &GenerateOptions) -> (r: String)
    ensures
        r@ == expr_text(*expr, options@),
    decreases *expr,
{
    match expr {
        Expr::Range(range) => generate_range(range, options),
        Expr::Binary { op, left, right } => {
            let between = joiner_string(
                match op {
                    BinaryOp::And => true,
                    BinaryOp::Or => false,
                },
                options.use_symbols,
            );
            let mut r = "(".to_owned();
            r.append(to_ddr_string_with_options(left, options).as_str());
            r.append(")");
            r.append(between.as_str());
            r.append("(");
            r.append(to_ddr_string_with_options(right, options).as_str());
            r.append(")");
            r
        },
        Expr::WithMr { ddr_expr, mr } => {
            let mut r = "(".to_owned();
            r.append(to_ddr_string_with_options(ddr_expr, options).as_str());
            r.append(") and mr(G");
            r.append(decimal_string(*mr as u64).as_str());
            r.append(")");
            r
        },
    }
}

} // verus!

//! The short notation `1|3` and `1&3, 24`: two numbers with `|` or `&`
//! between them, and an MR text behind a comma if there is one.
//!
//! `1|3` stands for detectors 1 to 3 joined by `or`, `1&3` for the same
//! joined by `and`. Unlike the grammar of the parser, this notation knows no
//! blanks inside the range, no parentheses and no chains.

use vstd::prelude::*;
use vstd::string::*;
use crate::conditions::grammar::{is_digit, is_digit_char, number_value};
use crate::text::{chars_of, contains_char, decimal, decimal_string, text_between, trim, trim_bounds};

verus! {

/// The first position at or after `i` that holds `c`; the end of `s` where
/// there is none.
pub open spec fn find_char(s: Seq<char>, c: char, i: int) -> int
    decreases s.len() - i,
{
    if 0 <= i < s.len() && s[i] != c {
        find_char(s, c, i + 1)
    } else {
        i
    }
}

/// The number that `s` spells: a `+`, a `-` or neither, then digits and
/// nothing else, with a value that fits in 32 bits with a sign.
pub open spec fn signed_value(s: Seq<char>) -> Option<int> {
    let negative = s.len() > 0 && s[0] == '-';
    let from: int = if s.len() > 0 && (s[0] == '-' || s[0] == '+') {
        1
    } else {
        0
    };
    if from >= s.len() || exists|k: int| from <= k < s.len() && !is_digit(#[trigger] s[k]) {
        None
    } else {
        let magnitude = number_value(s, from, s.len() as int) as int;
        let n = if negative {
            -magnitude
        } else {
            magnitude
        };
        if i32::MIN <= n <= i32::MAX {
            Some(n)
        } else {
            None
        }
    }
}

/// `n` in base ten, with `-` before it where it is negative.
pub open spec fn signed_decimal(n: int) -> Seq<char> {
    if n < 0 {
        "-"@ + decimal((-n) as nat)
    } else {
        decimal(n as nat)
    }
}

/// One detector in the long form.
pub open spec fn ddr_item(n: int) -> Seq<char> {
    "ddr(D"@ + signed_decimal(n) + ")"@
}

/// The detectors from `start` to `end` in the long form, with `between`
/// between one and the next. Nothing where `end` is below `start`.
pub open spec fn ddr_items(between: Seq<char>, start: int, end: int) -> Seq<char>
    decreases end - start,
{
    if end < start {
        Seq::empty()
    } else if end == start {
        ddr_item(start)
    } else {
        ddr_items(between, start, end - 1) + between + ddr_item(end)
    }
}

/// The long form of a range in the short notation, in parentheses; `None`
/// where `s` is no such range.
///
/// The operator is `|` if `s` holds one, else `&`. The two numbers are the
/// texts before the first operator and between the first and the second;
/// what follows a second operator is not looked at.
pub open spec fn ddr_text(s: Seq<char>) -> Option<Seq<char>> {
    if !s.contains('|') && !s.contains('&') {
        None
    } else {
        let op = if s.contains('|') {
            '|'
        } else {
            '&'
        };
        let a = find_char(s, op, 0);
        let b = find_char(s, op, a + 1);
        match (signed_value(s.subrange(0, a)), signed_value(s.subrange(a + 1, b))) {
            (Some(start), Some(end)) => Some(
                "("@ + ddr_items(
                    if op == '|' {
                        " or "@
                    } else {
                        " and "@
                    },
                    start,
                    end,
                ) + ")"@,
            ),
            _ => None,
        }
    }
}

/// The long form of a condition in the short notation; `None` where
/// `input` is no such condition.
///
/// Without a comma, `input` is a range. With one comma, a range stands
/// before it and the MR text behind it. Both are trimmed. More than one
/// comma is not accepted.
pub open spec fn condition_text(input: Seq<char>) -> Option<Seq<char>> {
    let comma = find_char(input, ',', 0);
    if comma >= input.len() {
        ddr_text(trim(input))
    } else {
        let behind = input.subrange(comma + 1, input.len() as int);
        if behind.contains(',') {
            None
        } else {
            match ddr_text(trim(input.subrange(0, comma))) {
                Some(ddr) => Some("("@ + ddr + ") and mr(G"@ + trim(behind) + ")"@),
                None => None,
            }
        }
    }
}

/// The search stops within the text, passes over other characters only, and
/// stops at `c` unless it stops at the end.
pub proof fn lemma_find_char(s: Seq<char>, c: char, i: int)
    requires
        0 <= i <= s.len(),
    ensures
        i <= find_char(s, c, i) <= s.len(),
        forall|k: int| i <= k < find_char(s, c, i) ==> #[trigger] s[k] != c,
        find_char(s, c, i) < s.len() ==> s[find_char(s, c, i)] == c,
    decreases s.len() - i,
{
    if i < s.len() && s[i] != c {
        lemma_find_char(s, c, i + 1);
    }
}

/// Finds the first `c` at or after `i`.
pub fn read_until(s: &[char], c: char, i: usize) -> (r: usize)
    requires
        i <= s@.len(),
    ensures
        r == find_char(s@, c, i as int),
        i <= r <= s@.len(),
{
    let mut r = i;
    while r < s.len() && s[r] != c
        invariant
            i <= r <= s@.len(),
            find_char(s@, c, i as int) == find_char(s@, c, r as int),
        decreases s@.len() - r,
    {
        r += 1;
    }
    r
}

/// Reads a number with or without a sign from the whole of `s`.
pub fn read_signed(s: &[char]) -> (r: Option<i32>)
    ensures
        match r {
            Some(n) => signed_value(s@) == Some(n as int),
            None => signed_value(s@) is None,
        },
{
    let len = s.len();
    let negative = len > 0 && s[0] == '-';
    let from: usize = if len > 0 && (s[0] == '-' || s[0] == '+') {
        1
    } else {
        0
    };
    if from >= len {
        return None;
    }
    let limit: u64 = 0x8000_0000;
    let mut value: u64 = 0;
    let mut too_large = false;
    let mut k = from;
    while k < len
        invariant
            from <= k <= len == s@.len(),
            limit == 0x8000_0000,
            from as int == if s@.len() > 0 && (s@[0] == '-' || s@[0] == '+') {
                1int
            } else {
                0int
            },
            forall|m: int| from <= m < k ==> is_digit(#[trigger] s@[m]),
            !too_large ==> value == number_value(s@, from as int, k as int) && value <= limit,
            too_large ==> number_value(s@, from as int, k as int) > limit,
        decreases len - k,
    {
        if !is_digit_char(s[k]) {
            assert(!is_digit(s@[k as int]));
            return None;
        }
        if !too_large {
            let digit: u32 = s[k] as u32 - '0' as u32;
            value = value * 10 + digit as u64;
            if value > limit {
                too_large = true;
            }
        }
        k += 1;
    }
    if too_large {
        proof {
            lemma_grows(s@, from as int, k as int, len as int);
        }
        None
    } else if negative {
        Some((-(value as i64)) as i32)
    } else if value == limit {
        None
    } else {
        Some(value as i32)
    }
}

/// More digits do not make a smaller number.
proof fn lemma_grows(s: Seq<char>, from: int, k: int, to: int)
    requires
        from <= k <= to,
    ensures
        number_value(s, from, k) <= number_value(s, from, to),
    decreases to - k,
{
    if k < to {
        lemma_grows(s, from, k, to - 1);
    }
}

/// `n` in base ten, with its sign where it is negative.
pub fn signed_decimal_string(n: i32) -> (r: String)
    ensures
        r@ == signed_decimal(n as int),
{
    if n < 0 {
        let mut r = "-".to_owned();
        r.append(decimal_string((-(n as i64)) as u64).as_str());
        r
    } else {
        decimal_string(n as u64)
    }
}

/// Writes out the range that `s` spells in the short notation.
pub fn parse_ddr(s: &[char]) -> (r: Option<String>)
    ensures
        match r {
            Some(text) => ddr_text(s@) == Some(text@),
            None => ddr_text(s@) is None,
        },
{
    let op = if contains_char(s, '|') {
        '|'
    } else if contains_char(s, '&') {
        '&'
    } else {
        return None;
    };
    let a = read_until(s, op, 0);
    let len = s.len();
    proof {
        lemma_find_char(s@, op, 0);
        let at = choose|at: int| 0 <= at < s@.len() && s@[at] == op;
        assert(s@[at] == op);
        assert(a < len);
    }
    let b = read_until(s, op, a + 1);
    let start = match read_signed(vstd::slice::slice_subrange(s, 0, a)) {
        Some(n) => n,
        None => { return None; },
    };
    let end = match read_signed(vstd::slice::slice_subrange(s, a + 1, b)) {
        Some(n) => n,
        None => { return None; },
    };
    let between = if op == '|' {
        " or "
    } else {
        " and "
    };
    let mut r = "(".to_owned();
    let mut n: i64 = start as i64;
    while n <= end as i64
        invariant
            start <= n <= end + 1 || (end < start && n == start),
            r@ == "("@ + ddr_items(between@, start as int, n - 1),
        decreases end + 1 - n,
    {
        let ghost before = r@;
        if n > start as i64 {
            r.append(between);
        }
        r.append("ddr(D");
        r.append(signed_decimal_string(n as i32).as_str());
        r.append(")");
        proof {
            let done = ddr_items(between@, start as int, n - 1);
            if n > start {
                assert(r@ =~= "("@ + (done + between@ + ddr_item(n as int)));
            } else {
                assert(done =~= Seq::<char>::empty());
                assert(r@ =~= "("@ + ddr_item(n as int));
            }
        }
        n += 1;
    }
    r.append(")");
    Some(r)
}

/// Writes out the condition that `input` spells in the short notation, or
/// `None` where it spells none.
pub fn try_generate_condition(input: &str) -> (r: Option<String>)
    ensures
        match r {
            Some(text) => condition_text(input@) == Some(text@),
            None => condition_text(input@) is None,
        },
{
    let chars = chars_of(input);
    let s = chars.as_slice();
    let len = s.len();
    let comma = read_until(s, ',', 0);
    if comma >= len {
        let (a, b) = trim_bounds(s);
        parse_ddr(vstd::slice::slice_subrange(s, a, b))
    } else {
        let behind = vstd::slice::slice_subrange(s, comma + 1, len);
        if contains_char(behind, ',') {
            return None;
        }
        let front = vstd::slice::slice_subrange(s, 0, comma);
        let (a, b) = trim_bounds(front);
        let ddr = match parse_ddr(vstd::slice::slice_subrange(front, a, b)) {
            Some(ddr) => ddr,
            None => { return None; },
        };
        let (c, d) = trim_bounds(behind);
        proof {
            assert(behind@.subrange(c as int, d as int) =~= input@.subrange(
                comma + 1 + c,
                comma + 1 + d,
            ));
        }
        let mut r = "(".to_owned();
        r.append(ddr.as_str());
        r.append(") and mr(G");
        r.append(text_between(input, comma + 1 + c, comma + 1 + d).as_str());
        r.append(")");
        Some(r)
    }
}

/// Writes out the condition that `input` spells in the short notation.
pub fn generate_condition(input: &str) -> (r: String)
    requires
        condition_text(input@) is Some,
    ensures
        condition_text(input@) == Some(r@),
{
    match try_generate_condition(input) {
        Some(text) => text,
        None => String::new(),
    }
}

} // verus!

//! Characters, whitespace and decimal numbers: the small vocabulary that the
//! parser and the generator share.

use vstd::prelude::*;
use vstd::string::*;

verus! {

/// The characters with the Unicode property `White_Space`.
pub open spec fn is_whitespace(c: char) -> bool {
    let n = c as u32;
    ||| 0x09 <= n <= 0x0D
    ||| n == 0x20
    ||| n == 0x85
    ||| n == 0xA0
    ||| n == 0x1680
    ||| 0x2000 <= n <= 0x200A
    ||| n == 0x2028
    ||| n == 0x2029
    ||| n == 0x202F
    ||| n == 0x205F
    ||| n == 0x3000
}

/// The first position at or after `i` that holds no whitespace.
pub open spec fn skip_whitespace(s: Seq<char>, i: int) -> int
    decreases s.len() - i,
{
    if 0 <= i < s.len() && is_whitespace(s[i]) {
        skip_whitespace(s, i + 1)
    } else {
        i
    }
}

/// The end of the text before `j` once the whitespace just before `j` is dropped.
pub open spec fn back_whitespace(s: Seq<char>, j: int) -> int
    decreases j,
{
    if 0 < j <= s.len() && is_whitespace(s[j - 1]) {
        back_whitespace(s, j - 1)
    } else {
        j
    }
}

/// `s` without its leading whitespace.
pub open spec fn trim_start(s: Seq<char>) -> Seq<char> {
    s.subrange(skip_whitespace(s, 0), s.len() as int)
}

/// `s` without its trailing whitespace.
pub open spec fn trim_end(s: Seq<char>) -> Seq<char> {
    s.subrange(0, back_whitespace(s, s.len() as int))
}

/// `s` without the whitespace at either end.
pub open spec fn trim(s: Seq<char>) -> Seq<char> {
    trim_end(trim_start(s))
}

/// The character that is written for the digit `d`, for `d` below ten.
pub open spec fn digit_char(d: nat) -> char {
    ('0' as u8 + d) as char
}

/// `n` in base ten, without leading zeros.
pub open spec fn decimal(n: nat) -> Seq<char>
    decreases n,
{
    if n < 10 {
        seq![digit_char(n)]
    } else {
        decimal(n / 10).push(digit_char(n % 10))
    }
}

/// Every character of `s` is whitespace.
pub open spec fn all_whitespace(s: Seq<char>) -> bool {
    forall|k: int| 0 <= k < s.len() ==> is_whitespace(#[trigger] s[k])
}

/// Skipping whitespace stops within the text, passes over whitespace only,
/// and stops at what is none.
pub proof fn lemma_skip_whitespace(s: Seq<char>, i: int)
    requires
        0 <= i <= s.len(),
    ensures
        i <= skip_whitespace(s, i) <= s.len(),
        forall|k: int| i <= k < skip_whitespace(s, i) ==> is_whitespace(#[trigger] s[k]),
        skip_whitespace(s, i) < s.len() ==> !is_whitespace(s[skip_whitespace(s, i)]),
    decreases s.len() - i,
{
    if i < s.len() && is_whitespace(s[i]) {
        lemma_skip_whitespace(s, i + 1);
    }
}

/// Stepping back over whitespace stops within the text, passes over
/// whitespace only, and stops behind what is none.
pub proof fn lemma_back_whitespace(s: Seq<char>, j: int)
    requires
        0 <= j <= s.len(),
    ensures
        0 <= back_whitespace(s, j) <= j,
        forall|k: int| back_whitespace(s, j) <= k < j ==> is_whitespace(#[trigger] s[k]),
        back_whitespace(s, j) > 0 ==> !is_whitespace(s[back_whitespace(s, j) - 1]),
    decreases j,
{
    if 0 < j && is_whitespace(s[j - 1]) {
        lemma_back_whitespace(s, j - 1);
    }
}

/// Stepping back over whitespace looks only at what stands before the start.
pub proof fn lemma_back_whitespace_prefix(s: Seq<char>, j: int, m: int)
    requires
        0 <= j <= m <= s.len(),
    ensures
        back_whitespace(s.subrange(0, m), j) == back_whitespace(s, j),
    decreases j,
{
    if 0 < j && is_whitespace(s[j - 1]) {
        lemma_back_whitespace_prefix(s, j - 1, m);
    }
}

/// Skipping whitespace in the text from `a` on is skipping it in the whole text.
pub proof fn lemma_skip_whitespace_suffix(s: Seq<char>, a: int, i: int)
    requires
        0 <= a <= s.len(),
        0 <= i <= s.len() - a,
    ensures
        skip_whitespace(s.subrange(a, s.len() as int), i) + a == skip_whitespace(s, a + i),
    decreases s.len() - a - i,
{
    let t = s.subrange(a, s.len() as int);
    if i < t.len() && is_whitespace(t[i]) {
        lemma_skip_whitespace_suffix(s, a, i + 1);
    }
}

/// Skipping whitespace in `a + b` stops in `a` where `a` has text left, and
/// goes on into `b` where it has none.
pub proof fn lemma_skip_whitespace_concat(a: Seq<char>, b: Seq<char>, i: int)
    requires
        0 <= i <= a.len(),
    ensures
        skip_whitespace(a + b, i) == if skip_whitespace(a, i) < a.len() {
            skip_whitespace(a, i)
        } else {
            a.len() + skip_whitespace(b, 0)
        },
    decreases a.len() - i,
{
    let s = a + b;
    if i < a.len() {
        assert(s[i] == a[i]);
        if is_whitespace(a[i]) {
            lemma_skip_whitespace_concat(a, b, i + 1);
        }
    } else {
        assert(s.subrange(a.len() as int, s.len() as int) =~= b);
        lemma_skip_whitespace_suffix(s, a.len() as int, 0);
    }
}

/// Stepping back over whitespace in `a + b` stops in `b` where `b` has text
/// before the start, and goes on into `a` where it has none.
pub proof fn lemma_back_whitespace_concat(a: Seq<char>, b: Seq<char>, j: int)
    requires
        0 <= j <= b.len(),
    ensures
        back_whitespace(a + b, a.len() + j) == if back_whitespace(b, j) > 0 {
            a.len() + back_whitespace(b, j)
        } else {
            back_whitespace(a, a.len() as int)
        },
    decreases j,
{
    let s = a + b;
    if j > 0 {
        assert(s[a.len() + j - 1] == b[j - 1]);
        if is_whitespace(b[j - 1]) {
            lemma_back_whitespace_concat(a, b, j - 1);
        }
    } else {
        assert(s.subrange(0, a.len() as int) =~= a);
        lemma_back_whitespace_prefix(s, a.len() as int, a.len() as int);
    }
}

/// Whitespace around a text does not change what trimming leaves of it.
pub proof fn lemma_trim_surrounded(before: Seq<char>, s: Seq<char>, behind: Seq<char>)
    requires
        all_whitespace(before),
        all_whitespace(behind),
    ensures
        trim(before + s + behind) == trim(s),
{
    let tail = s + behind;
    let whole = before + tail;
    assert(before + s + behind =~= whole);
    // the start
    lemma_skip_whitespace(before, 0);
    lemma_skip_whitespace_concat(before, tail, 0);
    lemma_skip_whitespace(tail, 0);
    let a = skip_whitespace(tail, 0);
    assert(trim_start(whole) =~= trim_start(tail));
    lemma_skip_whitespace(s, 0);
    lemma_skip_whitespace_concat(s, behind, 0);
    lemma_skip_whitespace(behind, 0);
    let a_s = skip_whitespace(s, 0);
    if a_s < s.len() {
        // `s` has text: the whitespace behind it goes in the second step
        let kept = trim_start(s);
        assert(trim_start(tail) =~= kept + behind);
        lemma_back_whitespace(behind, behind.len() as int);
        lemma_back_whitespace_concat(kept, behind, behind.len() as int);
        lemma_back_whitespace(kept, kept.len() as int);
        let b = back_whitespace(kept, kept.len() as int);
        assert(trim_end(kept + behind) =~= trim_end(kept));
    } else {
        // `s` is whitespace throughout: nothing is left either way
        assert(trim_start(tail).len() == 0);
        assert(trim_start(s).len() == 0);
        assert(trim(whole) =~= trim(s));
    }
}

/// A text that neither starts nor ends with whitespace is left as it is.
pub proof fn lemma_trim_keeps(s: Seq<char>)
    requires
        s.len() > 0 ==> !is_whitespace(s[0]) && !is_whitespace(s.last()),
    ensures
        trim(s) == s,
        trim_end(s) == s,
{
    if s.len() > 0 {
        assert(skip_whitespace(s, 0) == 0);
        assert(trim_start(s) =~= s);
        assert(back_whitespace(s, s.len() as int) == s.len());
    } else {
        assert(trim_start(s) =~= s);
    }
    assert(trim_end(s) =~= s);
}

/// Trimming a trimmed text changes nothing.
pub proof fn lemma_trim_idempotent(s: Seq<char>)
    ensures
        trim(trim(s)) == trim(s),
{
    lemma_skip_whitespace(s, 0);
    let t = trim_start(s);
    lemma_back_whitespace(t, t.len() as int);
    let u = trim(s);
    lemma_skip_whitespace(u, 0);
    if u.len() > 0 {
        assert(u[0] == t[0]);
        assert(!is_whitespace(u[0]));
        assert(trim_start(u) =~= u);
        lemma_back_whitespace(u, u.len() as int);
        assert(u.last() == t[u.len() - 1]);
        assert(trim_end(u) =~= u);
    } else {
        assert(trim(u) =~= u);
    }
}

/// Whether `c` is whitespace.
pub fn is_whitespace_char(c: char) -> (b: bool)
    ensures
        b == is_whitespace(c),
{
    let n: u32 = c as u32;
    (0x09 <= n && n <= 0x0D) || n == 0x20 || n == 0x85 || n == 0xA0 || n == 0x1680 || (0x2000 <= n
        && n <= 0x200A) || n == 0x2028 || n == 0x2029 || n == 0x202F || n == 0x205F || n == 0x3000
}

/// The characters of `s`, in order.
pub fn chars_of(s: &str) -> (v: Vec<char>)
    ensures
        v@ == s@,
{
    let mut v: Vec<char> = Vec::new();
    for c in it: s.chars()
        invariant
            v@ == it.seq().take(it.index() as int),
            it.seq() == s@,
    {
        v.push(c);
    }
    v
}

/// Steps back from `j` over the whitespace that ends there.
pub fn read_back_whitespace(s: &[char], j: usize) -> (r: usize)
    requires
        j <= s@.len(),
    ensures
        r == back_whitespace(s@, j as int),
        r <= j,
{
    let mut r = j;
    while r > 0 && is_whitespace_char(s[r - 1])
        invariant
            r <= j <= s@.len(),
            back_whitespace(s@, j as int) == back_whitespace(s@, r as int),
        decreases r,
    {
        r -= 1;
    }
    r
}

/// Where the text of `s` starts and ends once it is trimmed.
pub fn trim_bounds(s: &[char]) -> (r: (usize, usize))
    ensures
        r.0 <= r.1 <= s@.len(),
        s@.subrange(r.0 as int, r.1 as int) == trim(s@),
        r.0 == skip_whitespace(s@, 0),
{
    let n = s.len();
    let mut a: usize = 0;
    while a < n && is_whitespace_char(s[a])
        invariant
            a <= n == s@.len(),
            skip_whitespace(s@, 0) == skip_whitespace(s@, a as int),
        decreases n - a,
    {
        a += 1;
    }
    let ghost rest = s@.subrange(a as int, n as int);
    let mut b: usize = n;
    while b > a && is_whitespace_char(s[b - 1])
        invariant
            a <= b <= n == s@.len(),
            rest == s@.subrange(a as int, n as int),
            back_whitespace(rest, rest.len() as int) == back_whitespace(rest, b - a),
        decreases b,
    {
        b -= 1;
    }
    proof {
        assert(rest.subrange(0, b - a) =~= s@.subrange(a as int, b as int));
        if b == a {
            assert(back_whitespace(rest, 0) == 0);
        }
    }
    (a, b)
}

/// The digit `d` as text.
pub fn digit_text(d: u64) -> (r: &'static str)
    requires
        d < 10,
    ensures
        r@ == seq![digit_char(d as nat)],
{
    proof {
        reveal_strlit("0");
        reveal_strlit("1");
        reveal_strlit("2");
        reveal_strlit("3");
        reveal_strlit("4");
        reveal_strlit("5");
        reveal_strlit("6");
        reveal_strlit("7");
        reveal_strlit("8");
        reveal_strlit("9");
    }
    let r = if d == 0 {
        "0"
    } else if d == 1 {
        "1"
    } else if d == 2 {
        "2"
    } else if d == 3 {
        "3"
    } else if d == 4 {
        "4"
    } else if d == 5 {
        "5"
    } else if d == 6 {
        "6"
    } else if d == 7 {
        "7"
    } else if d == 8 {
        "8"
    } else {
        "9"
    };
    assert(r@ =~= seq![digit_char(d as nat)]);
    r
}

/// `n` in base ten.
pub fn decimal_string(n: u64) -> (r: String)
    ensures
        r@ == decimal(n as nat),
    decreases n,
{
    if n < 10 {
        digit_text(n).to_owned()
    } else {
        let mut r = decimal_string(n / 10);
        r.append(digit_text(n % 10));
        assert(r@ =~= decimal((n / 10) as nat).push(digit_char((n % 10) as nat)));
        r
    }
}

/// Whether `c` occurs in `s`.
pub fn contains_char(s: &[char], c: char) -> (b: bool)
    ensures
        b == s@.contains(c),
{
    let mut i: usize = 0;
    while i < s.len()
        invariant
            i <= s@.len(),
            forall|k: int| 0 <= k < i ==> s@[k] != c,
        decreases s@.len() - i,
    {
        if s[i] == c {
            return true;
        }
        i += 1;
    }
    false
}

/// The text of `s` from `from` up to `to`, as a string of its own.
pub fn text_between(s: &str, from: usize, to: usize) -> (r: String)
    requires
        from <= to <= s@.len(),
    ensures
        r@ == s@.subrange(from as int, to as int),
{
    s.substring_char(from, to).to_owned()
}

} // verus!

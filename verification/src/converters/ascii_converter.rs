//! A text as the dotted list of its byte codes.

use vstd::prelude::*;
use vstd::string::*;
use vstd::utf8::encode_utf8;
use crate::text::{chars_of, decimal, decimal_string, trim, trim_bounds};

verus! {

/// The codes `bytes` in base ten, with a dot between one and the next.
pub open spec fn codes_text(bytes: Seq<u8>) -> Seq<char>
    decreases bytes.len(),
{
    if bytes.len() == 0 {
        Seq::empty()
    } else if bytes.len() == 1 {
        decimal(bytes[0] as nat)
    } else {
        codes_text(bytes.drop_last()) + "."@ + decimal(bytes.last() as nat)
    }
}

/// The dotted notation of `s`: `.1.`, the number of bytes of `s` once it is
/// trimmed, a dot, and the codes of all the bytes of `s` as it stands,
/// whitespace at its ends included.
pub open spec fn scn_text(s: Seq<char>) -> Seq<char> {
    ".1."@ + decimal(encode_utf8(trim(s)).len()) + "."@ + codes_text(encode_utf8(s))
}

/// Writes `string` in the dotted notation: `CO4554` becomes
/// `.1.6.67.79.52.53.53.52`.
pub fn gen_scn_from_chars(string: &str) -> (r: String)
    ensures
        r@ == scn_text(string@),
{
    let chars = chars_of(string);
    let (a, b) = trim_bounds(chars.as_slice());
    let trimmed = string.substring_char(a, b);
    let len = trimmed.as_bytes().len();
    let bytes = string.as_bytes();
    let mut r = ".1.".to_owned();
    r.append(decimal_string(len as u64).as_str());
    r.append(".");
    let ghost head = r@;
    let n = bytes.len();
    let mut i: usize = 0;
    while i < n
        invariant
            i <= n == bytes@.len(),
            r@ == head + codes_text(bytes@.take(i as int)),
        decreases n - i,
    {
        let ghost before = codes_text(bytes@.take(i as int));
        if i > 0 {
            r.append(".");
        }
        r.append(decimal_string(bytes[i] as u64).as_str());
        proof {
            let taken = bytes@.take(i + 1);
            assert(taken.drop_last() =~= bytes@.take(i as int));
            assert(taken.last() == bytes@[i as int]);
            if i > 0 {
                assert(r@ =~= head + (before + "."@ + decimal(bytes@[i as int] as nat)));
            } else {
                assert(before =~= Seq::<char>::empty());
                assert(r@ =~= head + decimal(bytes@[i as int] as nat));
            }
        }
        i += 1;
    }
    proof {
        assert(bytes@.take(n as int) =~= bytes@);
    }
    r
}

} // verus!

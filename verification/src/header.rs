//! The text of a `Range` request header for one byte range.

use crate::range::ByteRange;
use vstd::prelude::*;

verus! {

/// The character that stands for the digit `d`.
pub open spec fn digit_char(d: int) -> char {
    if d == 0 {
        '0'
    } else if d == 1 {
        '1'
    } else if d == 2 {
        '2'
    } else if d == 3 {
        '3'
    } else if d == 4 {
        '4'
    } else if d == 5 {
        '5'
    } else if d == 6 {
        '6'
    } else if d == 7 {
        '7'
    } else if d == 8 {
        '8'
    } else {
        '9'
    }
}

/// `n` written in base ten, without a sign and without leading zeros.
pub open spec fn decimal(n: nat) -> Seq<char>
    decreases n,
{
    if n < 10 {
        seq![digit_char(n as int)]
    } else {
        decimal(n / 10).push(digit_char((n % 10) as int))
    }
}

/// The header value that asks for the bytes of `range`: the unit, the first
/// offset, a hyphen and the last offset.
pub open spec fn range_header_text(range: ByteRange) -> Seq<char> {
    seq!['b', 'y', 't', 'e', 's', '='] + decimal(range.start as nat) + seq!['-'] + decimal(
        range.end as nat,
    )
}

/// The one-character text of a digit.
fn digit_str(d: u64) -> (s: &'static str)
    requires
        d < 10,
    ensures
        s@ == seq![digit_char(d as int)],
{
    proof {
        reveal_strlit("0");
        reveal_strlit("1");
        reveal_strlit("2");
        reveal_strlit("3");
        reveal_strlit("4");
        reveal_strlit("5");
        reveal_strlit("6");
        reveal_strlit("7");
        reveal_strlit("8");
        reveal_strlit("9");
    }
    let s = if d == 0 {
        "0"
    } else if d == 1 {
        "1"
    } else if d == 2 {
        "2"
    } else if d == 3 {
        "3"
    } else if d == 4 {
        "4"
    } else if d == 5 {
        "5"
    } else if d == 6 {
        "6"
    } else if d == 7 {
        "7"
    } else if d == 8 {
        "8"
    } else {
        "9"
    };
    s
}

/// Appends `n` in base ten to `out`.
pub fn push_decimal(out: &mut String, n: u64)
    ensures
        final(out)@ == old(out)@ + decimal(n as nat),
    decreases n,
{
    if n >= 10 {
        push_decimal(out, n / 10);
    }
    out.append(digit_str(n % 10));
}

/// The `Range` header value for `range`, such as `bytes=0-1023`.
pub fn range_header(range: &ByteRange) -> (text: String)
    ensures
        text@ == range_header_text(*range),
{
    proof {
        reveal_strlit("bytes=");
        reveal_strlit("-");
    }
    let mut text = String::from_str("bytes=");
    push_decimal(&mut text, range.start);
    text.append("-");
    push_decimal(&mut text, range.end);
    assert(text@ =~= range_header_text(*range));
    text
}

} // verus!

//! Decimal rendering of integers, as `format!("{}")` writes them.

use vstd::prelude::*;

use crate::text::{char_from_ascii_code, push_char};

verus! {

/// The ASCII digit of `d < 10`.
pub open spec fn digit_char(d: nat) -> char {
    (48 + d) as char
}

/// Decimal digits of `n`, most significant first, without leading zeros.
pub open spec fn dec_nat(n: nat) -> Seq<char>
    decreases n,
{
    if n < 10 {
        seq![digit_char(n)]
    } else {
        dec_nat(n / 10) + seq![digit_char(n % 10)]
    }
}

/// Decimal text of an integer, with `-` before a negative one.
pub open spec fn dec_int(i: int) -> Seq<char> {
    if i < 0 {
        seq!['-'] + dec_nat((-i) as nat)
    } else {
        dec_nat(i as nat)
    }
}

/// Appends the decimal digits of `n` to `s`.
pub fn push_decimal_u64(s: &mut String, n: u64)
    ensures
        final(s)@ == old(s)@ + dec_nat(n as nat),
    decreases n,
{
    if n >= 10 {
        push_decimal_u64(s, n / 10);
    }
    let d: u64 = n % 10;
    let c = char_from_ascii_code(48 + d as u32);
    push_char(s, c);
    assert(s@ =~= old(s)@ + dec_nat(n as nat));
}

/// Appends the decimal text of `i` to `s`.
pub fn push_decimal_i64(s: &mut String, i: i64)
    ensures
        final(s)@ == old(s)@ + dec_int(i as int),
{
    if i < 0 {
        push_char(s, '-');
        let magnitude: u64 = if i == i64::MIN {
            9_223_372_036_854_775_808u64
        } else {
            (-i) as u64
        };
        push_decimal_u64(s, magnitude);
        assert(s@ =~= old(s)@ + dec_int(i as int));
    } else {
        push_decimal_u64(s, i as u64);
    }
}

} // verus!

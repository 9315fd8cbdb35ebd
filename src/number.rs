//! Decimal text of integers.

use vstd::prelude::*;

verus! {

/// The decimal digit character for `d`, which is below ten.
pub open spec fn digit(d: nat) -> char {
    seq!['0', '1', '2', '3', '4', '5', '6', '7', '8', '9'][d as int]
}

/// The decimal digits of `n`, most significant first, without leading zeros.
pub open spec fn decimal(n: nat) -> Seq<char>
    decreases n,
{
    if n < 10 {
        seq![digit(n)]
    } else {
        decimal(n / 10).push(digit(n % 10))
    }
}

/// The decimal text of `i`: its digits, after a `-` when it is negative.
pub open spec fn signed_decimal(i: int) -> Seq<char> {
    if i < 0 {
        seq!['-'] + decimal((-i) as nat)
    } else {
        decimal(i as nat)
    }
}

/// Relies on `itoa::Buffer::format` for `u128`: it prints the decimal digits of
/// the value, without sign or leading zeros.
#[verifier::external_body]
pub(crate) fn format_unsigned(n: u128) -> (r: String)
    ensures
        r@ == decimal(n as nat),
{
    itoa::Buffer::new().format(n).to_string()
}

/// Relies on `itoa::Buffer::format` for `i128`: it prints the decimal digits of
/// the magnitude, after a `-` when the value is negative.
#[verifier::external_body]
pub(crate) fn format_signed(n: i128) -> (r: String)
    ensures
        r@ == signed_decimal(n as int),
{
    itoa::Buffer::new().format(n).to_string()
}

} // verus!

//! The head of a response: the status line and the blank line after it.

use vstd::prelude::*;
use vstd::string::*;
use crate::bytes::append;
use crate::parse::{decimal_value, digits_value, is_digit};

verus! {

/// The status of the response that the catch-all gives.
pub const NOT_FOUND: u16 = 404;

/// The decimal digits of `n`, without leading zeros.
pub open spec fn decimal_digits(n: nat) -> Seq<u8>
    decreases n,
{
    if n < 10 {
        seq![(0x30 + n) as u8]
    } else {
        decimal_digits(n / 10).push((0x30 + n % 10) as u8)
    }
}

/// The status line for `status`: the version, the status in decimal, and a
/// line end.
pub open spec fn status_line(status: u16) -> Seq<u8> {
    "HTTP/1.1 ".spec_bytes() + decimal_digits(status as nat) + "\r\n".spec_bytes()
}

/// The head of the response with `status`: its status line and the blank
/// line that ends the head. The engine sends no header of its own.
pub open spec fn head_bytes(status: u16) -> Seq<u8> {
    status_line(status) + "\r\n".spec_bytes()
}

/// The digits of a number denote that number.
pub proof fn lemma_decimal_digits_value(n: nat)
    ensures
        decimal_digits(n).len() > 0,
        forall|i: int| 0 <= i < decimal_digits(n).len() ==> is_digit(#[trigger] decimal_digits(n)[i]),
        digits_value(decimal_digits(n)) == n,
        decimal_value(decimal_digits(n)) == Some(n),
    decreases n,
{
    let digits = decimal_digits(n);
    if n < 10 {
        assert(digits.drop_last() =~= Seq::<u8>::empty());
        assert(digits_value(digits.drop_last()) == 0);
        assert(digits.last() == (0x30 + n) as u8);
    } else {
        lemma_decimal_digits_value(n / 10);
        assert(digits.drop_last() =~= decimal_digits(n / 10));
        assert(digits.last() == (0x30 + n % 10) as u8);
    }
    assert(is_digit(digits[0]));
}

/// Appends the decimal digits of `n` to `out`.
pub fn push_decimal(out: &mut Vec<u8>, n: u16)
    ensures
        final(out)@ == old(out)@ + decimal_digits(n as nat),
    decreases n,
{
    if n >= 10 {
        push_decimal(out, n / 10);
    }
    let digit: u8 = 0x30 + (n % 10) as u8;
    out.push(digit);
    assert(out@ =~= old(out)@ + decimal_digits(n as nat));
}

/// The bytes of the head of the response with `status`.
pub fn response_head(status: u16) -> (r: Vec<u8>)
    ensures
        r@ == head_bytes(status),
{
    let mut out: Vec<u8> = Vec::new();
    append(&mut out, "HTTP/1.1 ".as_bytes());
    push_decimal(&mut out, status);
    append(&mut out, "\r\n".as_bytes());
    append(&mut out, "\r\n".as_bytes());
    assert(out@ =~= head_bytes(status));
    out
}

} // verus!

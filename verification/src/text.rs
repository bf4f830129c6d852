//! Numbers as text.

use crate::bits::{high_byte, low_byte, split_pair};
use vstd::prelude::*;
use vstd::string::*;

verus! {

/// The digits of base 16, in order.
pub const HEX_DIGITS: &'static str = "0123456789abcdef";

/// The digit that stands for `value` in base 16, lower case.
pub open spec fn hex_digit(value: int) -> Seq<char> {
    HEX_DIGITS@.subrange(value, value + 1)
}

/// A byte as two digits of base 16.
pub open spec fn hex2(value: u8) -> Seq<char> {
    hex_digit(value as int / 16) + hex_digit(value as int % 16)
}

/// A 16-bit value as four digits of base 16.
pub open spec fn hex4(value: u16) -> Seq<char> {
    hex2(high_byte(value)) + hex2(low_byte(value))
}

/// A byte as eight digits of base 2, the highest bit first.
pub open spec fn binary8(value: u8) -> Seq<char> {
    hex_digit(value as int / 128 % 2) + hex_digit(value as int / 64 % 2) + hex_digit(
        value as int / 32 % 2,
    ) + hex_digit(value as int / 16 % 2) + hex_digit(value as int / 8 % 2) + hex_digit(
        value as int / 4 % 2,
    ) + hex_digit(value as int / 2 % 2) + hex_digit(value as int % 2)
}

pub fn push_hex_digit(text: &mut String, value: u8)
    requires
        value < 16,
    ensures
        final(text)@ == old(text)@ + hex_digit(value as int),
{
    proof {
        reveal_strlit("0123456789abcdef");
    }
    let digit = HEX_DIGITS.substring_ascii(value as usize, value as usize + 1);
    text.append(digit);
}

pub fn push_hex2(text: &mut String, value: u8)
    ensures
        final(text)@ == old(text)@ + hex2(value),
{
    push_hex_digit(text, value / 16);
    push_hex_digit(text, value % 16);
    assert(text@ =~= old(text)@ + hex2(value));
}

pub fn push_hex4(text: &mut String, value: u16)
    ensures
        final(text)@ == old(text)@ + hex4(value),
{
    let (high, low) = split_pair(value);
    push_hex2(text, high);
    push_hex2(text, low);
    assert(text@ =~= old(text)@ + hex4(value));
}

pub fn push_binary8(text: &mut String, value: u8)
    ensures
        final(text)@ == old(text)@ + binary8(value),
{
    push_hex_digit(text, value / 128 % 2);
    push_hex_digit(text, value / 64 % 2);
    push_hex_digit(text, value / 32 % 2);
    push_hex_digit(text, value / 16 % 2);
    push_hex_digit(text, value / 8 % 2);
    push_hex_digit(text, value / 4 % 2);
    push_hex_digit(text, value / 2 % 2);
    push_hex_digit(text, value % 2);
    assert(text@ =~= old(text)@ + binary8(value));
}

} // verus!

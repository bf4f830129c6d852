//! Bit-level facts that the rest of the crate states in plain arithmetic.

use vstd::prelude::*;

verus! {

/// The number of bits of `v` that are set.
pub open spec fn count_ones(v: u8) -> nat {
    ((v & 1) + ((v >> 1) & 1) + ((v >> 2) & 1) + ((v >> 3) & 1) + ((v >> 4) & 1) + ((v >> 5)
        & 1) + ((v >> 6) & 1) + ((v >> 7) & 1)) as nat
}

/// Whether an even number of bits of `v` is set.
pub open spec fn parity_even(v: u8) -> bool {
    count_ones(v) % 2 == 0
}

/// The 16-bit value whose high byte is `high` and whose low byte is `low`.
pub open spec fn pair(high: u8, low: u8) -> u16 {
    (high * 256 + low) as u16
}

/// The high byte of a 16-bit value.
pub open spec fn high_byte(value: u16) -> u8 {
    (value / 256) as u8
}

/// The low byte of a 16-bit value.
pub open spec fn low_byte(value: u16) -> u8 {
    (value % 256) as u8
}

/// The byte that is congruent to `value` modulo 256.
pub open spec fn wrap8(value: int) -> u8 {
    (value % 256) as u8
}

/// The 16-bit value that is congruent to `value` modulo 65536.
pub open spec fn wrap16(value: int) -> u16 {
    (value % 65536) as u16
}

/// What `wrap8` is on the sums and differences of two bytes.
pub proof fn lemma_wrap8(value: int)
    requires
        -256 <= value < 512,
    ensures
        wrap8(value) == if value < 0 {
            value + 256
        } else if value < 256 {
            value
        } else {
            value - 256
        },
{
}

/// What `wrap16` is on the sums and differences of two 16-bit values.
pub proof fn lemma_wrap16(value: int)
    requires
        -65536 <= value < 131072,
    ensures
        wrap16(value) == if value < 0 {
            value + 65536
        } else if value < 65536 {
            value
        } else {
            value - 65536
        },
{
}

/// Folding a byte onto itself with exclusive or leaves its parity in the lowest bit.
pub proof fn lemma_parity_fold(v: u8)
    by (bit_vector)
    ensures
        parity_even(v) <==> ((v ^ (v >> 4)) ^ ((v ^ (v >> 4)) >> 2) ^ (((v ^ (v >> 4)) ^ ((v ^ (v
            >> 4)) >> 2)) >> 1)) & 1 == 0,
{
}

pub fn is_parity_even(v: u8) -> (even: bool)
    ensures
        even == parity_even(v),
{
    let a: u8 = v ^ (v >> 4);
    let b: u8 = a ^ (a >> 2);
    let c: u8 = b ^ (b >> 1);
    proof {
        lemma_parity_fold(v);
    }
    c & 1 == 0
}

pub fn make_pair(high: u8, low: u8) -> (value: u16)
    ensures
        value == pair(high, low),
        high_byte(value) == high,
        low_byte(value) == low,
{
    let value: u16 = ((high as u16) << 8) | (low as u16);
    assert(((high as u16) << 8) | (low as u16) == high as u16 * 256 + low as u16) by (bit_vector);
    value
}

pub fn split_pair(value: u16) -> (bytes: (u8, u8))
    ensures
        bytes.0 == high_byte(value),
        bytes.1 == low_byte(value),
        pair(bytes.0, bytes.1) == value,
{
    let high: u8 = (value >> 8) as u8;
    let low: u8 = (value & 0xff) as u8;
    assert(value >> 8 == value / 256 && value & 0xff == value % 256) by (bit_vector);
    (high, low)
}

/// A pair of bytes and the 16-bit value they make hold the same.
pub proof fn lemma_pair(high: u8, low: u8, value: u16)
    ensures
        high_byte(pair(high, low)) == high,
        low_byte(pair(high, low)) == low,
        pair(high_byte(value), low_byte(value)) == value,
{
}

} // verus!

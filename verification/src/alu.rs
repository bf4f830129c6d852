//! The arithmetic of the accumulator: what each operation leaves in the
//! accumulator and in the flag byte.

use crate::bits::{lemma_wrap8, wrap8};
use crate::intel8080::{
    aux_carry_of, carry_of, flag_byte, form_flags, parity_of, sign_of, with_carry, zero_of,
    FLAG_AUX_CARRY, FLAG_CARRY, FLAG_PARITY, FLAG_SIGN, FLAG_ZERO,
};
use vstd::prelude::*;

verus! {

/// The carry flag as a number.
pub open spec fn carry_in(flags: u8) -> int {
    if carry_of(flags) {
        1
    } else {
        0
    }
}

/// The sum of `a`, `value` and a carry of 0 or 1, with the flags it forms:
/// carry out of bit 7, auxiliary carry out of bit 3.
pub open spec fn added(a: u8, value: u8, carry: int) -> (u8, u8) {
    let sum = a + value + carry;
    (wrap8(sum), flag_byte(wrap8(sum), sum > 0xff, a % 16 + value % 16 + carry > 0xf))
}

/// The difference of `a` and `value` plus a borrow of 0 or 1, with the flags
/// it forms: carry is the borrow out of bit 7, auxiliary carry the carry out
/// of bit 3 when the two's complement of the subtrahend is added.
pub open spec fn subtracted(a: u8, value: u8, borrow: int) -> (u8, u8) {
    let subtrahend = value + borrow;
    let difference = wrap8(a - subtrahend);
    (
        difference,
        flag_byte(difference, a < subtrahend, a % 16 + (256 - subtrahend) % 16 > 0xf),
    )
}

/// A logical result with its flags: carry clear, auxiliary carry as before.
pub open spec fn logical(result: u8, flags: u8) -> (u8, u8) {
    (result, flag_byte(result, false, aux_carry_of(flags)))
}

/// The accumulator and flags after one of the eight accumulator operations:
/// ADD, ADC, SUB, SBB, ANA, XRA, ORA, CMP, numbered as in bits 3 to 5 of
/// their opcodes.
pub open spec fn alu(operation: u8, a: u8, flags: u8, value: u8) -> (u8, u8) {
    if operation == 0 {
        added(a, value, 0)
    } else if operation == 1 {
        added(a, value, carry_in(flags))
    } else if operation == 2 {
        subtracted(a, value, 0)
    } else if operation == 3 {
        subtracted(a, value, carry_in(flags))
    } else if operation == 4 {
        logical(a & value, flags)
    } else if operation == 5 {
        logical(a ^ value, flags)
    } else if operation == 6 {
        logical(a | value, flags)
    } else {
        (a, subtracted(a, value, 0).1)
    }
}

/// The accumulator and flags after decimal adjust: 6 is added when the low
/// digit is above 9 or auxiliary carry is set, then 0x60 when the high digit
/// is above 9 or carry is set.
pub open spec fn decimal_adjusted(a: u8, flags: u8) -> (u8, u8) {
    let low = a % 16 > 9 || aux_carry_of(flags);
    let first = if low {
        wrap8(a + 6)
    } else {
        a
    };
    let high = first / 16 > 9 || carry_of(flags);
    let second = if high {
        wrap8(first + 0x60)
    } else {
        first
    };
    (
        second,
        flag_byte(
            second,
            carry_of(flags) || (high && first + 0x60 > 0xff),
            low && a % 16 + 6 > 0xf,
        ),
    )
}

/// Whether the condition numbered as in bits 3 to 5 of a conditional opcode
/// holds: NZ, Z, NC, C, PO, PE, P, M.
pub open spec fn condition(flags: u8, code: u8) -> bool {
    if code == 0 {
        !zero_of(flags)
    } else if code == 1 {
        zero_of(flags)
    } else if code == 2 {
        !carry_of(flags)
    } else if code == 3 {
        carry_of(flags)
    } else if code == 4 {
        !parity_of(flags)
    } else if code == 5 {
        parity_of(flags)
    } else if code == 6 {
        !sign_of(flags)
    } else {
        sign_of(flags)
    }
}

/// The accumulator and flags after one of the eight instructions that work
/// on the accumulator alone: RLC, RRC, RAL, RAR, DAA, CMA, STC, CMC, numbered
/// as in bits 3 to 5 of their opcodes. The rotates change no flag but carry.
pub open spec fn accumulator(operation: u8, a: u8, flags: u8) -> (u8, u8) {
    if operation == 0 {
        (wrap8(a * 2 + a / 128), with_carry(flags, a >= 128))
    } else if operation == 1 {
        ((a / 2 + (a % 2) * 128) as u8, with_carry(flags, a % 2 == 1))
    } else if operation == 2 {
        (wrap8(a * 2 + carry_in(flags)), with_carry(flags, a >= 128))
    } else if operation == 3 {
        ((a / 2 + carry_in(flags) * 128) as u8, with_carry(flags, a % 2 == 1))
    } else if operation == 4 {
        decimal_adjusted(a, flags)
    } else if operation == 5 {
        ((255 - a) as u8, flags)
    } else if operation == 6 {
        (a, with_carry(flags, true))
    } else {
        (a, with_carry(flags, !carry_of(flags)))
    }
}

pub fn add_exec(a: u8, value: u8, carry: bool) -> (result: (u8, u8))
    ensures
        result == added(a, value, if carry { 1 } else { 0 }),
{
    let carry_in: u16 = if carry {
        1
    } else {
        0
    };
    let sum: u16 = a as u16 + value as u16 + carry_in;
    let low: u8 = if sum > 0xff {
        (sum - 256) as u8
    } else {
        sum as u8
    };
    let auxcarry = (a % 16) as u16 + (value % 16) as u16 + carry_in > 0xf;
    (low, form_flags(low, sum > 0xff, auxcarry))
}

pub fn subtract_exec(a: u8, value: u8, borrow: bool) -> (result: (u8, u8))
    ensures
        result == subtracted(a, value, if borrow { 1 } else { 0 }),
{
    let minuend = a as u16;
    let subtrahend: u16 = value as u16 + (if borrow {
        1
    } else {
        0
    });
    let difference: u8 = if minuend < subtrahend {
        (minuend + 256 - subtrahend) as u8
    } else {
        (minuend - subtrahend) as u8
    };
    let auxcarry = minuend % 16 + (256 - subtrahend) % 16 > 0xf;
    (difference, form_flags(difference, minuend < subtrahend, auxcarry))
}

pub fn alu_exec(operation: u8, a: u8, flags: u8, value: u8) -> (result: (u8, u8))
    ensures
        result == alu(operation, a, flags, value),
{
    let carry = flags & FLAG_CARRY != 0;
    let auxcarry = flags & FLAG_AUX_CARRY != 0;
    if operation == 0 {
        add_exec(a, value, false)
    } else if operation == 1 {
        add_exec(a, value, carry)
    } else if operation == 2 {
        subtract_exec(a, value, false)
    } else if operation == 3 {
        subtract_exec(a, value, carry)
    } else if operation == 4 {
        (a & value, form_flags(a & value, false, auxcarry))
    } else if operation == 5 {
        (a ^ value, form_flags(a ^ value, false, auxcarry))
    } else if operation == 6 {
        (a | value, form_flags(a | value, false, auxcarry))
    } else {
        (a, subtract_exec(a, value, false).1)
    }
}

#[verifier::rlimit(60)]
pub fn decimal_adjust_exec(a: u8, flags: u8) -> (result: (u8, u8))
    ensures
        result == decimal_adjusted(a, flags),
{
    let carry = flags & FLAG_CARRY != 0;
    let low = a % 16 > 9 || flags & FLAG_AUX_CARRY != 0;
    let first: u8 = if low {
        if a >= 250 {
            a - 250
        } else {
            a + 6
        }
    } else {
        a
    };
    let high = first / 16 > 9 || carry;
    let second: u8 = if high {
        if first >= 0xa0 {
            first - 0xa0
        } else {
            first + 0x60
        }
    } else {
        first
    };
    proof {
        lemma_wrap8(a + 6);
        lemma_wrap8(first + 0x60);
    }
    (second, form_flags(second, carry || (high && first >= 0xa0), low && a % 16 > 9))
}

fn replace_carry(flags: u8, carry: bool) -> (result: u8)
    ensures
        result == with_carry(flags, carry),
{
    (flags & !FLAG_CARRY) | (if carry {
        FLAG_CARRY
    } else {
        0
    })
}

pub fn accumulator_exec(operation: u8, a: u8, flags: u8) -> (result: (u8, u8))
    ensures
        result == accumulator(operation, a, flags),
{
    let carry: u8 = if flags & FLAG_CARRY != 0 {
        1
    } else {
        0
    };
    if operation == 0 {
        ((a % 128) * 2 + a / 128, replace_carry(flags, a >= 128))
    } else if operation == 1 {
        (a / 2 + (a % 2) * 128, replace_carry(flags, a % 2 == 1))
    } else if operation == 2 {
        ((a % 128) * 2 + carry, replace_carry(flags, a >= 128))
    } else if operation == 3 {
        (a / 2 + carry * 128, replace_carry(flags, a % 2 == 1))
    } else if operation == 4 {
        decimal_adjust_exec(a, flags)
    } else if operation == 5 {
        (255 - a, flags)
    } else if operation == 6 {
        (a, replace_carry(flags, true))
    } else {
        (a, replace_carry(flags, carry == 0))
    }
}

pub fn condition_exec(flags: u8, code: u8) -> (holds: bool)
    ensures
        holds == condition(flags, code),
{
    if code == 0 {
        flags & FLAG_ZERO == 0
    } else if code == 1 {
        flags & FLAG_ZERO != 0
    } else if code == 2 {
        flags & FLAG_CARRY == 0
    } else if code == 3 {
        flags & FLAG_CARRY != 0
    } else if code == 4 {
        flags & FLAG_PARITY == 0
    } else if code == 5 {
        flags & FLAG_PARITY != 0
    } else if code == 6 {
        flags & FLAG_SIGN == 0
    } else {
        flags & FLAG_SIGN != 0
    }
}

/// Adding a byte and taking it away again gives the first byte back, and
/// the flags after the addition say of the sum what the flag byte is meant
/// to say: sign its highest bit, zero whether it is 0, auxiliary carry the
/// carry out of the low four bits, parity whether an even number of its
/// bits is set, carry the carry out of the byte.
pub proof fn lemma_add_then_subtract(a: u8, b: u8)
    ensures
        subtracted(added(a, b, 0).0, b, 0).0 == a,
        added(a, b, 0).0 == wrap8(a + b),
        sign_of(added(a, b, 0).1) == (wrap8(a + b) >= 128),
        zero_of(added(a, b, 0).1) == (wrap8(a + b) == 0),
        aux_carry_of(added(a, b, 0).1) == (a % 16 + b % 16 > 0xf),
        parity_of(added(a, b, 0).1) == crate::bits::parity_even(wrap8(a + b)),
        carry_of(added(a, b, 0).1) == (a + b > 0xff),
        added(a, b, 0).1 & 0x02 != 0,
        added(a, b, 0).1 & 0x28 == 0,
{
    lemma_wrap8(a + b);
    lemma_wrap8(wrap8(a + b) - b);
    crate::intel8080::lemma_flag_byte(wrap8(a + b), a + b > 0xff, a % 16 + b % 16 > 0xf);
}

/// ADD and then SUB of the same operand leave the accumulator as it was.
pub proof fn lemma_alu_add_sub(a: u8, flags: u8, value: u8)
    ensures
        alu(2, alu(0, a, flags, value).0, alu(0, a, flags, value).1, value).0 == a,
{
    lemma_add_then_subtract(a, value);
}

} // verus!

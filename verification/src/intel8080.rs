//! The processor's registers and flags, and the two buses it talks to.

use crate::bits::{high_byte, low_byte, make_pair, pair, split_pair, wrap16};
use crate::text::{binary8, hex2, hex4, push_binary8, push_hex2, push_hex4};
use vstd::prelude::*;
use vstd::string::*;

verus! {

/// A bank of 256 input and 256 output ports.
///
/// A device is described by its view: what a read returns and what a read or
/// a write leaves behind are functions of the view and the arguments alone.
pub trait IODevices: View + Sized {
    /// The byte that a read of `device` returns.
    spec fn input(state: Self::V, device: u8) -> u8;

    /// The devices after a read of `device`.
    spec fn after_read(state: Self::V, device: u8) -> Self::V;

    /// The devices after `value` was written to `device`.
    spec fn after_write(state: Self::V, device: u8, value: u8) -> Self::V;

    fn read(&mut self, device: u8) -> (value: u8)
        ensures
            value == Self::input(old(self)@, device),
            final(self)@ == Self::after_read(old(self)@, device),
    ;

    fn write(&mut self, device: u8, value: u8)
        ensures
            final(self)@ == Self::after_write(old(self)@, device, value),
    ;
}

/// A 16-bit address space of bytes.
pub trait Memory: View + Sized {
    /// The byte that a read of `adress` returns.
    spec fn byte_at(state: Self::V, adress: u16) -> u8;

    /// The memory after `value` was written to `adress`.
    spec fn after_write(state: Self::V, adress: u16, value: u8) -> Self::V;

    /// The bytes that `get_rom` hands out.
    spec fn rom(state: Self::V) -> Seq<u8>;

    fn read(&self, adress: u16) -> (value: u8)
        ensures
            value == Self::byte_at(self@, adress),
    ;

    fn write(&mut self, adress: u16, value: u8)
        ensures
            final(self)@ == Self::after_write(old(self)@, adress, value),
    ;

    fn get_rom(&mut self) -> (rom: Vec<u8>)
        ensures
            rom@ == Self::rom(old(self)@),
            final(self)@ == old(self)@,
    ;

    fn read_u16(&self, adress: u16) -> (value: u16)
        ensures
            value == pair(
                Self::byte_at(self@, wrap16(adress + 1)),
                Self::byte_at(self@, adress),
            ),
    {
        let low = self.read(adress);
        let high = self.read(adress.wrapping_add(1));
        make_pair(high, low)
    }
}

/// The little-endian 16-bit value at `adress`; the address of its high byte wraps.
pub open spec fn word_at<M: Memory>(state: M::V, adress: u16) -> u16 {
    pair(
        M::byte_at(state, wrap16(adress + 1)),
        M::byte_at(state, adress),
    )
}

/// The memory after a 16-bit value was pushed below `sp`: the low byte two
/// below, then the high byte one below, both addresses wrapping.
pub open spec fn pushed<M: Memory>(state: M::V, sp: u16, value: u16) -> M::V {
    M::after_write(
        M::after_write(state, wrap16(sp - 2), low_byte(value)),
        wrap16(sp - 1),
        high_byte(value),
    )
}

/// Bit 0 of the flag byte: carry.
pub const FLAG_CARRY: u8 = 0x01;

/// Bit 1 of the flag byte, set whenever the byte is formed from a result.
pub const FLAG_RESERVED: u8 = 0x02;

/// Bit 2 of the flag byte: parity.
pub const FLAG_PARITY: u8 = 0x04;

/// Bit 4 of the flag byte: auxiliary carry.
pub const FLAG_AUX_CARRY: u8 = 0x10;

/// Bit 6 of the flag byte: zero.
pub const FLAG_ZERO: u8 = 0x40;

/// Bit 7 of the flag byte: sign.
pub const FLAG_SIGN: u8 = 0x80;

/// The flag byte formed from a result and the two carries: carry in bit 0,
/// bit 1 set, parity in bit 2, auxiliary carry in bit 4, zero in bit 6,
/// sign in bit 7, bits 3 and 5 clear.
pub open spec fn flag_byte(result: u8, carry: bool, auxcarry: bool) -> u8 {
    FLAG_RESERVED | (if carry {
        FLAG_CARRY
    } else {
        0
    }) | (if crate::bits::parity_even(result) {
        FLAG_PARITY
    } else {
        0
    }) | (if auxcarry {
        FLAG_AUX_CARRY
    } else {
        0
    }) | (if result == 0 {
        FLAG_ZERO
    } else {
        0
    }) | (result & FLAG_SIGN)
}

pub fn form_flags(result: u8, carry: bool, auxcarry: bool) -> (flags: u8)
    ensures
        flags == flag_byte(result, carry, auxcarry),
{
    let parity = crate::bits::is_parity_even(result);
    FLAG_RESERVED | (if carry {
        FLAG_CARRY
    } else {
        0
    }) | (if parity {
        FLAG_PARITY
    } else {
        0
    }) | (if auxcarry {
        FLAG_AUX_CARRY
    } else {
        0
    }) | (if result == 0 {
        FLAG_ZERO
    } else {
        0
    }) | (result & FLAG_SIGN)
}

/// The flag byte with its carry bit replaced.
pub open spec fn with_carry(flags: u8, carry: bool) -> u8 {
    (flags & !FLAG_CARRY) | (if carry {
        FLAG_CARRY
    } else {
        0
    })
}

pub open spec fn carry_of(flags: u8) -> bool {
    flags & FLAG_CARRY != 0
}

pub open spec fn aux_carry_of(flags: u8) -> bool {
    flags & FLAG_AUX_CARRY != 0
}

pub open spec fn zero_of(flags: u8) -> bool {
    flags & FLAG_ZERO != 0
}

pub open spec fn sign_of(flags: u8) -> bool {
    flags & FLAG_SIGN != 0
}

pub open spec fn parity_of(flags: u8) -> bool {
    flags & FLAG_PARITY != 0
}

proof fn lemma_flag_bits(result: u8, carry: bool, parity: bool, auxcarry: bool)
    by (bit_vector)
    ensures
        ({
            let flags = 0x02u8 | (if carry {
                0x01u8
            } else {
                0u8
            }) | (if parity {
                0x04u8
            } else {
                0u8
            }) | (if auxcarry {
                0x10u8
            } else {
                0u8
            }) | (if result == 0 {
                0x40u8
            } else {
                0u8
            }) | (result & 0x80u8);
            &&& (flags & 0x01u8 != 0) == carry
            &&& (flags & 0x04u8 != 0) == parity
            &&& (flags & 0x10u8 != 0) == auxcarry
            &&& (flags & 0x40u8 != 0) == (result == 0)
            &&& (flags & 0x80u8 != 0) == (result >= 128)
            &&& flags & 0x02u8 != 0
            &&& flags & 0x28u8 == 0
        }),
{
}

/// What each bit of a flag byte formed from a result says: carry and
/// auxiliary carry as given, parity whether the result has an even number
/// of bits set, zero whether it is 0, sign its highest bit; bit 1 is set
/// and bits 3 and 5 are clear.
pub proof fn lemma_flag_byte(result: u8, carry: bool, auxcarry: bool)
    ensures
        carry_of(flag_byte(result, carry, auxcarry)) == carry,
        parity_of(flag_byte(result, carry, auxcarry)) == crate::bits::parity_even(result),
        aux_carry_of(flag_byte(result, carry, auxcarry)) == auxcarry,
        zero_of(flag_byte(result, carry, auxcarry)) == (result == 0),
        sign_of(flag_byte(result, carry, auxcarry)) == (result >= 128),
        flag_byte(result, carry, auxcarry) & FLAG_RESERVED != 0,
        flag_byte(result, carry, auxcarry) & 0x28 == 0,
{
    lemma_flag_bits(result, carry, crate::bits::parity_even(result), auxcarry);
}

proof fn lemma_carry_bits(flags: u8, carry: bool)
    by (bit_vector)
    ensures
        ({
            let changed = (flags & !0x01u8) | (if carry {
                0x01u8
            } else {
                0u8
            });
            &&& (changed & 0x01u8 != 0) == carry
            &&& changed & 0xfeu8 == flags & 0xfeu8
            &&& (changed & 0x04u8 != 0) == (flags & 0x04u8 != 0)
            &&& (changed & 0x10u8 != 0) == (flags & 0x10u8 != 0)
            &&& (changed & 0x40u8 != 0) == (flags & 0x40u8 != 0)
            &&& (changed & 0x80u8 != 0) == (flags & 0x80u8 != 0)
        }),
{
}

/// Replacing the carry bit changes no other bit.
pub proof fn lemma_with_carry(flags: u8, carry: bool)
    ensures
        carry_of(with_carry(flags, carry)) == carry,
        with_carry(flags, carry) & 0xfe == flags & 0xfe,
        parity_of(with_carry(flags, carry)) == parity_of(flags),
        aux_carry_of(with_carry(flags, carry)) == aux_carry_of(flags),
        zero_of(with_carry(flags, carry)) == zero_of(flags),
        sign_of(with_carry(flags, carry)) == sign_of(flags),
{
    lemma_carry_bits(flags, carry);
}

/// The registers of the processor.
#[allow(non_snake_case)]
#[derive(Clone, Copy, Debug, PartialEq, Eq, Structural)]
pub struct I8080State {
    pub A: u8,
    pub Flags: u8,
    pub B: u8,
    pub C: u8,
    pub D: u8,
    pub E: u8,
    pub H: u8,
    pub L: u8,
    pub SP: u16,
    pub PC: u16,
    pub interrupt_enabled: bool,
}

#[allow(non_snake_case)]
impl I8080State {
    /// The state after reset.
    pub open spec fn initial() -> I8080State {
        I8080State {
            A: 0,
            Flags: FLAG_RESERVED,
            B: 0,
            C: 0,
            D: 0,
            E: 0,
            H: 0,
            L: 0,
            SP: 0,
            PC: 0,
            interrupt_enabled: false,
        }
    }

    pub open spec fn psw(self) -> u16 {
        pair(self.A, self.Flags)
    }

    pub open spec fn bc(self) -> u16 {
        pair(self.B, self.C)
    }

    pub open spec fn de(self) -> u16 {
        pair(self.D, self.E)
    }

    pub open spec fn hl(self) -> u16 {
        pair(self.H, self.L)
    }

    /// The registers as three lines of text: a heading, the registers and
    /// the flag byte, and the two 16-bit registers.
    pub open spec fn state_text(self) -> Seq<char> {
        "B  C  D  E  H  L  A  SZ_A_P_C <- Flags\n"@ + hex2(self.B) + " "@ + hex2(self.C) + " "@
            + hex2(self.D) + " "@ + hex2(self.E) + " "@ + hex2(self.H) + " "@ + hex2(self.L) + " "@
            + hex2(self.A) + " "@ + binary8(self.Flags) + "\nPC: "@ + hex4(self.PC) + "   SP: "@
            + hex4(self.SP) + "\n"@
    }

    pub fn new() -> (state: I8080State)
        ensures
            state == I8080State::initial(),
    {
        I8080State {
            A: 0,
            Flags: FLAG_RESERVED,
            B: 0,
            C: 0,
            D: 0,
            E: 0,
            H: 0,
            L: 0,
            SP: 0,
            PC: 0,
            interrupt_enabled: false,
        }
    }

    pub fn get_PSW(&self) -> (value: u16)
        ensures
            value == self.psw(),
    {
        make_pair(self.A, self.Flags)
    }

    pub fn set_PSW(&mut self, value: u16)
        ensures
            *final(self) == (I8080State {
                A: high_byte(value),
                Flags: low_byte(value),
                ..*old(self)
            }),
            final(self).psw() == value,
    {
        let (high, low) = split_pair(value);
        self.A = high;
        self.Flags = low;
    }

    pub fn get_BC(&self) -> (value: u16)
        ensures
            value == self.bc(),
    {
        make_pair(self.B, self.C)
    }

    pub fn set_BC(&mut self, value: u16)
        ensures
            *final(self) == (I8080State {
                B: high_byte(value),
                C: low_byte(value),
                ..*old(self)
            }),
            final(self).bc() == value,
    {
        let (high, low) = split_pair(value);
        self.B = high;
        self.C = low;
    }

    pub fn get_DE(&self) -> (value: u16)
        ensures
            value == self.de(),
    {
        make_pair(self.D, self.E)
    }

    pub fn set_DE(&mut self, value: u16)
        ensures
            *final(self) == (I8080State {
                D: high_byte(value),
                E: low_byte(value),
                ..*old(self)
            }),
            final(self).de() == value,
    {
        let (high, low) = split_pair(value);
        self.D = high;
        self.E = low;
    }

    pub fn get_HL(&self) -> (value: u16)
        ensures
            value == self.hl(),
    {
        make_pair(self.H, self.L)
    }

    pub fn set_HL(&mut self, value: u16)
        ensures
            *final(self) == (I8080State {
                H: high_byte(value),
                L: low_byte(value),
                ..*old(self)
            }),
            final(self).hl() == value,
    {
        let (high, low) = split_pair(value);
        self.H = high;
        self.L = low;
    }

    pub fn get_SP(&self) -> (value: u16)
        ensures
            value == self.SP,
    {
        self.SP
    }

    pub fn set_SP(&mut self, value: u16)
        ensures
            *final(self) == (I8080State { SP: value, ..*old(self) }),
    {
        self.SP = value;
    }

    pub fn get_PC(&self) -> (value: u16)
        ensures
            value == self.PC,
    {
        self.PC
    }

    pub fn set_PC(&mut self, value: u16)
        ensures
            *final(self) == (I8080State { PC: value, ..*old(self) }),
    {
        self.PC = value;
    }

    /// Stores `value` below the stack pointer, low byte first, and moves the
    /// stack pointer down by two.
    pub fn push_stack<M: Memory>(&mut self, value: u16, memory: &mut M)
        ensures
            *final(self) == (I8080State { SP: wrap16(old(self).SP - 2), ..*old(self) }),
            final(memory)@ == pushed::<M>(old(memory)@, old(self).SP, value),
    {
        let (high, low) = split_pair(value);
        memory.write(self.SP.wrapping_sub(2), low);
        memory.write(self.SP.wrapping_sub(1), high);
        self.SP = self.SP.wrapping_sub(2);
    }

    /// Reads the 16-bit value at the stack pointer and moves the stack
    /// pointer up by two.
    pub fn pop_stack<M: Memory>(&mut self, memory: &M) -> (value: u16)
        ensures
            *final(self) == (I8080State { SP: wrap16(old(self).SP + 2), ..*old(self) }),
            value == word_at::<M>(memory@, old(self).SP),
    {
        let value = memory.read_u16(self.SP);
        self.SP = self.SP.wrapping_add(2);
        value
    }

    /// Sets every flag from a result and the two carries.
    pub fn set_flags(&mut self, result: u8, carry: bool, auxcarry: bool)
        ensures
            *final(self) == (I8080State {
                Flags: flag_byte(result, carry, auxcarry),
                ..*old(self)
            }),
    {
        self.Flags = form_flags(result, carry, auxcarry);
    }

    /// Sets every flag but carry, which stays as it is.
    pub fn set_flags_ex(&mut self, result: u8, auxcarry: bool)
        ensures
            *final(self) == (I8080State {
                Flags: flag_byte(result, carry_of(old(self).Flags), auxcarry),
                ..*old(self)
            }),
    {
        let carry = self.on_carry();
        self.set_flags(result, carry, auxcarry);
    }

    pub fn set_carry(&mut self, carry: bool)
        ensures
            *final(self) == (I8080State {
                Flags: with_carry(old(self).Flags, carry),
                ..*old(self)
            }),
    {
        self.Flags = (self.Flags & !FLAG_CARRY) | (if carry {
            FLAG_CARRY
        } else {
            0
        });
    }

    pub fn on_aux_carry(&self) -> (on: bool)
        ensures
            on == aux_carry_of(self.Flags),
    {
        (self.Flags & FLAG_AUX_CARRY) != 0
    }

    pub fn on_carry(&self) -> (on: bool)
        ensures
            on == carry_of(self.Flags),
    {
        (self.Flags & FLAG_CARRY) != 0
    }

    pub fn on_zero(&self) -> (on: bool)
        ensures
            on == zero_of(self.Flags),
    {
        (self.Flags & FLAG_ZERO) != 0
    }

    /// Whether the sign flag is clear.
    pub fn on_positive(&self) -> (on: bool)
        ensures
            on == !sign_of(self.Flags),
    {
        (self.Flags & FLAG_SIGN) == 0
    }

    pub fn on_parity_even(&self) -> (on: bool)
        ensures
            on == parity_of(self.Flags),
    {
        (self.Flags & FLAG_PARITY) != 0
    }

    pub fn print_state(&self) -> (text: String)
        ensures
            text@ == self.state_text(),
    {
        let mut text = String::new();
        text.append("B  C  D  E  H  L  A  SZ_A_P_C <- Flags\n");
        push_hex2(&mut text, self.B);
        text.append(" ");
        push_hex2(&mut text, self.C);
        text.append(" ");
        push_hex2(&mut text, self.D);
        text.append(" ");
        push_hex2(&mut text, self.E);
        text.append(" ");
        push_hex2(&mut text, self.H);
        text.append(" ");
        push_hex2(&mut text, self.L);
        text.append(" ");
        push_hex2(&mut text, self.A);
        text.append(" ");
        push_binary8(&mut text, self.Flags);
        text.append("\nPC: ");
        push_hex4(&mut text, self.PC);
        text.append("   SP: ");
        push_hex4(&mut text, self.SP);
        text.append("\n");
        assert(text@ =~= self.state_text());
        text
    }
}

} // verus!

//! The instruction set: what one opcode does to the machine, and the loop
//! that fetches and runs instructions against a clock budget.

use crate::bits::{high_byte, lemma_pair, lemma_wrap16, lemma_wrap8, low_byte, wrap16, wrap8};
use crate::alu::{accumulator, accumulator_exec, alu, alu_exec, condition, condition_exec};
use crate::intel8080::{
    carry_of, flag_byte, pushed, with_carry, word_at, I8080State, IODevices, Memory,
};
use crate::dissasembler::{around, code_ranges, dissasembly_around, trace};
use std::collections::HashSet;
use std::ops::Range;
use vstd::prelude::*;
use vstd::string::*;

verus! {

/// For each opcode, the bytes it occupies and the clock cycles it costs.
/// An opcode that names no instruction occupies no byte.
pub const SIZE_AND_CLOCKS: [(u8, u8); 256] = [
    (1, 4), (3, 10), (1, 7), (1, 5), (1, 5), (1, 5), (2, 7), (1, 4),
    (0, 4), (1, 10), (1, 7), (1, 5), (1, 5), (1, 5), (2, 7), (1, 4),
    (0, 4), (3, 10), (1, 7), (1, 5), (1, 5), (1, 5), (2, 7), (1, 4),
    (0, 4), (1, 10), (1, 7), (1, 5), (1, 5), (1, 5), (2, 7), (1, 4),
    (0, 4), (3, 10), (3, 16), (1, 5), (1, 5), (1, 5), (2, 7), (1, 4),
    (0, 4), (1, 10), (3, 16), (1, 5), (1, 5), (1, 5), (2, 7), (1, 4),
    (0, 4), (3, 10), (3, 13), (1, 5), (1, 10), (1, 10), (2, 10), (1, 4),
    (0, 4), (1, 10), (3, 13), (1, 5), (1, 5), (1, 5), (2, 7), (1, 4),
    (1, 5), (1, 5), (1, 5), (1, 5), (1, 5), (1, 5), (1, 7), (1, 5),
    (1, 5), (1, 5), (1, 5), (1, 5), (1, 5), (1, 5), (1, 7), (1, 5),
    (1, 5), (1, 5), (1, 5), (1, 5), (1, 5), (1, 5), (1, 7), (1, 5),
    (1, 5), (1, 5), (1, 5), (1, 5), (1, 5), (1, 5), (1, 7), (1, 5),
    (1, 5), (1, 5), (1, 5), (1, 5), (1, 5), (1, 5), (1, 7), (1, 5),
    (1, 5), (1, 5), (1, 5), (1, 5), (1, 5), (1, 5), (1, 7), (1, 5),
    (1, 7), (1, 7), (1, 7), (1, 7), (1, 7), (1, 7), (1, 7), (1, 7),
    (1, 5), (1, 5), (1, 5), (1, 5), (1, 5), (1, 5), (1, 7), (1, 5),
    (1, 4), (1, 4), (1, 4), (1, 4), (1, 4), (1, 4), (1, 7), (1, 4),
    (1, 4), (1, 4), (1, 4), (1, 4), (1, 4), (1, 4), (1, 7), (1, 4),
    (1, 4), (1, 4), (1, 4), (1, 4), (1, 4), (1, 4), (1, 7), (1, 4),
    (1, 4), (1, 4), (1, 4), (1, 4), (1, 4), (1, 4), (1, 7), (1, 4),
    (1, 4), (1, 4), (1, 4), (1, 4), (1, 4), (1, 4), (1, 7), (1, 4),
    (1, 4), (1, 4), (1, 4), (1, 4), (1, 4), (1, 4), (1, 7), (1, 4),
    (1, 4), (1, 4), (1, 4), (1, 4), (1, 4), (1, 4), (1, 7), (1, 4),
    (1, 4), (1, 4), (1, 4), (1, 4), (1, 4), (1, 4), (1, 7), (1, 4),
    (1, 5), (1, 10), (3, 10), (3, 10), (3, 11), (1, 11), (2, 7), (1, 11),
    (1, 5), (1, 10), (3, 10), (0, 10), (3, 11), (3, 17), (2, 7), (1, 11),
    (1, 5), (1, 10), (3, 10), (2, 10), (3, 11), (1, 11), (2, 7), (1, 11),
    (1, 5), (0, 10), (3, 10), (2, 10), (3, 11), (0, 17), (2, 7), (1, 11),
    (1, 5), (1, 10), (3, 10), (1, 18), (3, 11), (1, 11), (2, 7), (1, 11),
    (1, 5), (1, 5), (3, 10), (1, 4), (3, 11), (0, 17), (2, 7), (1, 11),
    (1, 5), (1, 10), (3, 10), (1, 4), (3, 11), (1, 11), (2, 7), (1, 11),
    (1, 5), (1, 5), (3, 10), (1, 4), (3, 11), (0, 17), (2, 7), (1, 11),
];

/// The opcode that halts the processor.
pub const HLT: u8 = 0x76;

/// No instruction costs more cycles than this.
pub const MAX_CLOCK: u64 = 18;

/// The most instructions that `runto` runs.
pub const RUNTO_LIMIT: u32 = 100_000;

pub open spec fn opcode_size(opcode: u8) -> u8 {
    SIZE_AND_CLOCKS[opcode as int].0
}

pub open spec fn opcode_clock(opcode: u8) -> u8 {
    SIZE_AND_CLOCKS[opcode as int].1
}

/// No opcode occupies more than 3 bytes, and each costs between 4 cycles
/// and `MAX_CLOCK`.
pub proof fn lemma_opcode_bounds(opcode: u8)
    ensures
        opcode_size(opcode) <= 3,
        4 <= opcode_clock(opcode) <= MAX_CLOCK,
{
}

/// The register numbered as in an opcode's register field: B, C, D, E, H, L,
/// and A under 7. Number 6 names no register but the memory at HL.
pub open spec fn register(cpu: I8080State, index: u8) -> u8 {
    if index == 0 {
        cpu.B
    } else if index == 1 {
        cpu.C
    } else if index == 2 {
        cpu.D
    } else if index == 3 {
        cpu.E
    } else if index == 4 {
        cpu.H
    } else if index == 5 {
        cpu.L
    } else {
        cpu.A
    }
}

pub open spec fn with_register(cpu: I8080State, index: u8, value: u8) -> I8080State {
    if index == 0 {
        I8080State { B: value, ..cpu }
    } else if index == 1 {
        I8080State { C: value, ..cpu }
    } else if index == 2 {
        I8080State { D: value, ..cpu }
    } else if index == 3 {
        I8080State { E: value, ..cpu }
    } else if index == 4 {
        I8080State { H: value, ..cpu }
    } else if index == 5 {
        I8080State { L: value, ..cpu }
    } else {
        I8080State { A: value, ..cpu }
    }
}

/// The register pair numbered as in an opcode's pair field: BC, DE, HL, SP.
pub open spec fn register_pair(cpu: I8080State, index: u8) -> u16 {
    if index == 0 {
        cpu.bc()
    } else if index == 1 {
        cpu.de()
    } else if index == 2 {
        cpu.hl()
    } else {
        cpu.SP
    }
}

pub open spec fn with_register_pair(cpu: I8080State, index: u8, value: u16) -> I8080State {
    if index == 0 {
        I8080State { B: high_byte(value), C: low_byte(value), ..cpu }
    } else if index == 1 {
        I8080State { D: high_byte(value), E: low_byte(value), ..cpu }
    } else if index == 2 {
        I8080State { H: high_byte(value), L: low_byte(value), ..cpu }
    } else {
        I8080State { SP: value, ..cpu }
    }
}

/// The register pair that PUSH and POP number: BC, DE, HL, and under 3 the
/// accumulator with the flag byte.
pub open spec fn stack_pair(cpu: I8080State, index: u8) -> u16 {
    if index == 3 {
        cpu.psw()
    } else {
        register_pair(cpu, index)
    }
}

pub open spec fn with_stack_pair(cpu: I8080State, index: u8, value: u16) -> I8080State {
    if index == 3 {
        I8080State { A: high_byte(value), Flags: low_byte(value), ..cpu }
    } else {
        with_register_pair(cpu, index, value)
    }
}

/// The whole machine as the instruction set sees it: the registers, the two
/// buses by their views, and the cycles counted so far.
pub struct Machine<M: Memory, I: IODevices> {
    pub cpu: I8080State,
    pub memory: M::V,
    pub devices: I::V,
    pub clock: int,
}

impl<M: Memory, I: IODevices> Machine<M, I> {
    pub open spec fn with_cpu(self, cpu: I8080State) -> Self {
        Machine { cpu, ..self }
    }

    pub open spec fn with_flags(self, flags: u8) -> Self {
        Machine { cpu: I8080State { Flags: flags, ..self.cpu }, ..self }
    }

    pub open spec fn with_a(self, a: u8, flags: u8) -> Self {
        Machine { cpu: I8080State { A: a, Flags: flags, ..self.cpu }, ..self }
    }

    pub open spec fn written(self, adress: u16, value: u8) -> Self {
        Machine { memory: M::after_write(self.memory, adress, value), ..self }
    }

    pub open spec fn byte_at(self, adress: u16) -> u8 {
        M::byte_at(self.memory, adress)
    }

    /// The operand that a register field names: a register, or under 6 the
    /// memory at HL.
    pub open spec fn operand(self, index: u8) -> u8 {
        if index == 6 {
            self.byte_at(self.cpu.hl())
        } else {
            register(self.cpu, index)
        }
    }

    pub open spec fn stored(self, index: u8, value: u8) -> Self {
        if index == 6 {
            self.written(self.cpu.hl(), value)
        } else {
            self.with_cpu(with_register(self.cpu, index, value))
        }
    }

    /// The byte before the program counter: the operand of a two-byte
    /// instruction once the program counter has passed it.
    pub open spec fn immediate(self) -> u8 {
        self.byte_at(wrap16(self.cpu.PC - 1))
    }

    /// The little-endian 16-bit value before the program counter.
    pub open spec fn immediate16(self) -> u16 {
        word_at::<M>(self.memory, wrap16(self.cpu.PC - 2))
    }

    pub open spec fn jumped(self, target: u16) -> Self {
        self.with_cpu(I8080State { PC: target, ..self.cpu })
    }

    pub open spec fn pushed(self, value: u16) -> Self {
        Machine {
            cpu: I8080State { SP: wrap16(self.cpu.SP - 2), ..self.cpu },
            memory: pushed::<M>(self.memory, self.cpu.SP, value),
            ..self
        }
    }

    pub open spec fn top_of_stack(self) -> u16 {
        word_at::<M>(self.memory, self.cpu.SP)
    }

    pub open spec fn popped(self) -> Self {
        self.with_cpu(I8080State { SP: wrap16(self.cpu.SP + 2), ..self.cpu })
    }

    pub open spec fn called(self, target: u16) -> Self {
        self.pushed(self.cpu.PC).jumped(target)
    }

    pub open spec fn returned(self) -> Self {
        self.popped().jumped(self.top_of_stack())
    }

    pub open spec fn with_alu(self, operation: u8, value: u8) -> Self {
        let (a, flags) = alu(operation, self.cpu.A, self.cpu.Flags, value);
        self.with_a(a, flags)
    }

    /// Opcodes 0x00 to 0x3f: loads, stores, 16-bit arithmetic, increments,
    /// rotates and the flag instructions.
    #[verifier::opaque]
    pub open spec fn executed_low(self, opcode: u8) -> Self {
        let cpu = self.cpu;
        let column = opcode % 8;
        let row = opcode / 8;
        if column == 1 {
            if row % 2 == 0 {
                self.with_cpu(with_register_pair(cpu, row / 2, self.immediate16()))
            } else {
                let sum = cpu.hl() + register_pair(cpu, row / 2);
                self.with_cpu(
                    I8080State {
                        H: high_byte(wrap16(sum)),
                        L: low_byte(wrap16(sum)),
                        Flags: with_carry(cpu.Flags, sum > 0xffff),
                        ..cpu
                    },
                )
            }
        } else if column == 2 {
            if opcode == 0x02 {
                self.written(cpu.bc(), cpu.A)
            } else if opcode == 0x0a {
                self.with_cpu(I8080State { A: self.byte_at(cpu.bc()), ..cpu })
            } else if opcode == 0x12 {
                self.written(cpu.de(), cpu.A)
            } else if opcode == 0x1a {
                self.with_cpu(I8080State { A: self.byte_at(cpu.de()), ..cpu })
            } else if opcode == 0x22 {
                self.written(self.immediate16(), cpu.L).written(
                    wrap16(self.immediate16() + 1),
                    cpu.H,
                )
            } else if opcode == 0x2a {
                self.with_cpu(
                    I8080State {
                        L: self.byte_at(self.immediate16()),
                        H: self.byte_at(wrap16(self.immediate16() + 1)),
                        ..cpu
                    },
                )
            } else if opcode == 0x32 {
                self.written(self.immediate16(), cpu.A)
            } else {
                self.with_cpu(I8080State { A: self.byte_at(self.immediate16()), ..cpu })
            }
        } else if column == 3 {
            let step: int = if row % 2 == 0 {
                1
            } else {
                -1
            };
            self.with_cpu(
                with_register_pair(cpu, row / 2, wrap16(register_pair(cpu, row / 2) + step)),
            )
        } else if column == 4 {
            let value = self.operand(row);
            let result = wrap8(value + 1);
            self.with_flags(flag_byte(result, carry_of(cpu.Flags), value % 16 == 15)).stored(
                row,
                result,
            )
        } else if column == 5 {
            let value = self.operand(row);
            let result = wrap8(value - 1);
            self.with_flags(flag_byte(result, carry_of(cpu.Flags), value % 16 == 0)).stored(
                row,
                result,
            )
        } else if column == 6 {
            self.stored(row, self.immediate())
        } else if column == 7 {
            let (a, flags) = accumulator(row, cpu.A, cpu.Flags);
            self.with_a(a, flags)
        } else {
            self
        }
    }

    /// Opcodes 0xc0 to 0xff: jumps, calls, returns, the stack, the ports and
    /// the accumulator operations on an immediate byte.
    #[verifier::opaque]
    pub open spec fn executed_high(self, opcode: u8) -> Self {
        let cpu = self.cpu;
        let column = opcode % 8;
        let row = (opcode / 8) % 8;
        if column == 0 {
            if condition(cpu.Flags, row) {
                self.returned()
            } else {
                self
            }
        } else if column == 1 {
            if row % 2 == 0 {
                self.popped().with_cpu(
                    with_stack_pair(self.popped().cpu, row / 2, self.top_of_stack()),
                )
            } else if row == 1 {
                self.returned()
            } else if row == 5 {
                self.jumped(cpu.hl())
            } else if row == 7 {
                self.with_cpu(I8080State { SP: cpu.hl(), ..cpu })
            } else {
                self
            }
        } else if column == 2 {
            if condition(cpu.Flags, row) {
                self.jumped(self.immediate16())
            } else {
                self
            }
        } else if column == 3 {
            if row == 0 {
                self.jumped(self.immediate16())
            } else if row == 2 {
                Machine {
                    devices: I::after_write(self.devices, self.immediate(), cpu.A),
                    ..self
                }
            } else if row == 3 {
                Machine {
                    cpu: I8080State { A: I::input(self.devices, self.immediate()), ..cpu },
                    devices: I::after_read(self.devices, self.immediate()),
                    ..self
                }
            } else if row == 4 {
                Machine {
                    cpu: I8080State {
                        H: self.byte_at(wrap16(cpu.SP + 1)),
                        L: self.byte_at(cpu.SP),
                        ..cpu
                    },
                    memory: M::after_write(
                        M::after_write(self.memory, wrap16(cpu.SP + 1), cpu.H),
                        cpu.SP,
                        cpu.L,
                    ),
                    ..self
                }
            } else if row == 5 {
                self.with_cpu(I8080State { D: cpu.H, E: cpu.L, H: cpu.D, L: cpu.E, ..cpu })
            } else if row == 6 {
                self.with_cpu(I8080State { interrupt_enabled: false, ..cpu })
            } else if row == 7 {
                self.with_cpu(I8080State { interrupt_enabled: true, ..cpu })
            } else {
                self
            }
        } else if column == 4 {
            if condition(cpu.Flags, row) {
                self.called(self.immediate16())
            } else {
                self
            }
        } else if column == 5 {
            if row % 2 == 0 {
                self.pushed(stack_pair(cpu, row / 2))
            } else if row == 1 {
                self.called(self.immediate16())
            } else {
                self
            }
        } else if column == 6 {
            self.with_alu(row, self.immediate())
        } else {
            self.called((row * 8) as u16)
        }
    }

    /// The machine after the instruction that `opcode` names, with the
    /// program counter already past the instruction. Operands are read
    /// from the bytes before the program counter. HLT and the opcodes that
    /// name no instruction change nothing.
    #[verifier::opaque]
    pub open spec fn executed(self, opcode: u8) -> Self {
        if opcode < 0x40 {
            self.executed_low(opcode)
        } else if opcode < 0x80 {
            if opcode == HLT {
                self
            } else {
                self.stored((opcode / 8) % 8, self.operand(opcode % 8))
            }
        } else if opcode < 0xc0 {
            self.with_alu((opcode / 8) % 8, self.operand(opcode % 8))
        } else {
            self.executed_high(opcode)
        }
    }
    /// The machine with the program counter past `opcode` and the cycles of
    /// `opcode` counted.
    pub open spec fn fetched(self, opcode: u8) -> Self {
        Machine {
            cpu: I8080State { PC: wrap16(self.cpu.PC + opcode_size(opcode)), ..self.cpu },
            clock: self.clock + opcode_clock(opcode),
            ..self
        }
    }

    /// Whether the program counter stands at a HLT.
    pub open spec fn halted(self) -> bool {
        self.byte_at(self.cpu.PC) == HLT
    }

    /// The machine after one instruction was fetched at the program counter
    /// and run. At a HLT nothing moves: neither the program counter nor the
    /// cycle count.
    pub open spec fn stepped(self) -> Self {
        if self.halted() {
            self
        } else {
            self.fetched(self.byte_at(self.cpu.PC)).executed(self.byte_at(self.cpu.PC))
        }
    }

    /// The machine after `opcode` was offered as an interrupt. With interrupts
    /// disabled nothing happens. Otherwise interrupts are disabled, the
    /// cycles of `opcode` are counted and `opcode` runs where the program
    /// counter stands, with no fetch.
    pub open spec fn interrupted(self, opcode: u8) -> Self {
        if self.cpu.interrupt_enabled {
            Machine {
                cpu: I8080State { interrupt_enabled: false, ..self.cpu },
                clock: self.clock + opcode_clock(opcode),
                ..self
            }.executed(opcode)
        } else {
            self
        }
    }

    /// The machine after it ran until its cycle count reached `target`, it
    /// halted, or an instruction left the program counter on a breakpoint.
    pub open spec fn ran(self, target: int, breakpoints: Set<u16>) -> Self
        decreases target - self.clock + MAX_CLOCK,
    {
        if self.clock >= target || self.halted() {
            self
        } else if breakpoints.contains(self.stepped().cpu.PC) {
            self.stepped()
        } else {
            proof {
                self.lemma_stepped_clock();
            }
            self.stepped().ran(target, breakpoints)
        }
    }

    /// The machine and whether it is in debug mode after `resume`: nothing
    /// moves in debug mode; else the machine runs, and is in debug mode
    /// afterwards if it ran at all and stands on a breakpoint.
    pub open spec fn resumed(self, debug: bool, target: int, breakpoints: Set<u16>) -> (
        Self,
        bool,
    ) {
        if debug {
            (self, true)
        } else {
            (
                self.ran(target, breakpoints),
                self.clock < target && !self.halted() && breakpoints.contains(
                    self.ran(target, breakpoints).cpu.PC,
                ),
            )
        }
    }

    /// Why a run that left the machine like this came back.
    pub open spec fn outcome(self, debug: bool, target: int) -> RunOutcome {
        if self.clock >= target {
            RunOutcome::Finished
        } else if debug {
            RunOutcome::Paused
        } else {
            RunOutcome::Halted
        }
    }

    /// The machine after it stepped until the program counter was `adress`,
    /// but no more than `steps` times.
    pub open spec fn ran_to(self, adress: u16, steps: nat) -> Self
        decreases steps,
    {
        if steps == 0 || self.cpu.PC == adress {
            self
        } else {
            self.stepped().ran_to(adress, (steps - 1) as nat)
        }
    }

    /// A run never lowers the cycle count, and ends at most `MAX_CLOCK`
    /// cycles past a target that was ahead.
    pub proof fn lemma_ran_clock(self, target: int, breakpoints: Set<u16>)
        ensures
            self.clock <= self.ran(target, breakpoints).clock,
            self.clock <= target ==> self.ran(target, breakpoints).clock <= target + MAX_CLOCK,
            self.clock > target ==> self.ran(target, breakpoints) == self,
        decreases target - self.clock + MAX_CLOCK,
    {
        self.lemma_stepped_clock();
        if !(self.clock >= target || self.halted()) && !breakpoints.contains(
            self.stepped().cpu.PC,
        ) {
            self.stepped().lemma_ran_clock(target, breakpoints);
        }
    }

    /// An interrupt counts at most `MAX_CLOCK` cycles.
    pub proof fn lemma_interrupted_clock(self, opcode: u8)
        ensures
            self.clock <= self.interrupted(opcode).clock <= self.clock + MAX_CLOCK,
    {
        lemma_opcode_bounds(opcode);
        if self.cpu.interrupt_enabled {
            (Machine::<M, I> {
                cpu: I8080State { interrupt_enabled: false, ..self.cpu },
                clock: self.clock + opcode_clock(opcode),
                ..self
            }).lemma_executed_clock(opcode);
        }
    }

    /// Where the instruction that `opcode` names sends the program counter
    /// if it is a jump, call or return that is taken, the program counter
    /// being past it already: JMP, CALL and their conditional forms to their
    /// operand, RET and its conditional forms to the address on the stack,
    /// RST to eight times its number, PCHL to HL. None for every other
    /// instruction and for a conditional one that is not taken.
    pub open spec fn branch_target(self, opcode: u8) -> Option<u16> {
        let row = (opcode / 8) % 8;
        if opcode < 0xc0 {
            None
        } else if opcode == 0xc3 || opcode == 0xcd {
            Some(self.immediate16())
        } else if opcode % 8 == 2 || opcode % 8 == 4 {
            if condition(self.cpu.Flags, row) {
                Some(self.immediate16())
            } else {
                None
            }
        } else if opcode == 0xc9 {
            Some(self.top_of_stack())
        } else if opcode % 8 == 0 {
            if condition(self.cpu.Flags, row) {
                Some(self.top_of_stack())
            } else {
                None
            }
        } else if opcode % 8 == 7 {
            Some((row * 8) as u16)
        } else if opcode == 0xe9 {
            Some(self.cpu.hl())
        } else {
            None
        }
    }

    /// An instruction leaves the program counter where it found it, unless
    /// it is a jump, call or return that is taken: then at its target.
    #[verifier::rlimit(60)]
    pub proof fn lemma_executed_pc(self, opcode: u8)
        ensures
            self.executed(opcode).cpu.PC == match self.branch_target(opcode) {
                Some(target) => target,
                None => self.cpu.PC,
            },
    {
        reveal(Machine::executed);
        reveal(Machine::executed_low);
        reveal(Machine::executed_high);
    }

    /// After a step that is not held at a HLT, the program counter has
    /// moved on by the size of the instruction, or stands at the target of a
    /// jump, call or return that was taken; and the cycles of the
    /// instruction were counted.
    pub proof fn lemma_step_advances(self)
        requires
            !self.halted(),
        ensures
            ({
                let opcode = self.byte_at(self.cpu.PC);
                &&& self.stepped().clock == self.clock + opcode_clock(opcode)
                &&& self.stepped().cpu.PC == match self.fetched(opcode).branch_target(opcode) {
                    Some(target) => target,
                    None => wrap16(self.cpu.PC + opcode_size(opcode)),
                }
            }),
    {
        let opcode = self.byte_at(self.cpu.PC);
        self.fetched(opcode).lemma_executed_pc(opcode);
        self.fetched(opcode).lemma_executed_clock(opcode);
    }

    /// Only EI and DI change whether interrupts are enabled.
    #[verifier::rlimit(60)]
    pub proof fn lemma_executed_interrupt_enabled(self, opcode: u8)
        ensures
            self.executed(opcode).cpu.interrupt_enabled == if opcode == 0xfb {
                true
            } else if opcode == 0xf3 {
                false
            } else {
                self.cpu.interrupt_enabled
            },
    {
        reveal(Machine::executed);
        reveal(Machine::executed_low);
        reveal(Machine::executed_high);
    }

    /// An interrupt is dropped while interrupts are disabled. While they
    /// are enabled, RST with the number `number` leaves the program counter
    /// at eight times the number, the old program counter on the stack, and
    /// interrupts disabled.
    #[verifier::rlimit(60)]
    pub proof fn lemma_interrupt_acceptance(self, number: u8)
        requires
            number < 8,
        ensures
            !self.cpu.interrupt_enabled ==> self.interrupted((0xc7 + 8 * number) as u8) == self,
            self.cpu.interrupt_enabled ==> {
                let after = self.interrupted((0xc7 + 8 * number) as u8);
                &&& after.cpu.PC == 8 * number
                &&& !after.cpu.interrupt_enabled
                &&& after.cpu.SP == wrap16(self.cpu.SP - 2)
                &&& after.memory == pushed::<M>(self.memory, self.cpu.SP, self.cpu.PC)
                &&& after.devices == self.devices
                &&& after.clock == self.clock + 11
            },
    {
        reveal(Machine::executed);
        reveal(Machine::executed_high);
    }

    /// PUSH and then POP of the same register pair leave the registers and
    /// the stack pointer as they were, where the memory below the stack
    /// pointer keeps what is written to it.
    #[verifier::rlimit(60)]
    pub proof fn lemma_push_pop(self, index: u8)
        requires
            index < 4,
            word_at::<M>(
                pushed::<M>(self.memory, self.cpu.SP, stack_pair(self.cpu, index)),
                wrap16(self.cpu.SP - 2),
            ) == stack_pair(self.cpu, index),
        ensures
            self.executed((0xc5 + 16 * index) as u8).executed((0xc1 + 16 * index) as u8).cpu
                == self.cpu,
            self.executed((0xc5 + 16 * index) as u8).cpu.SP == wrap16(self.cpu.SP - 2),
    {
        reveal(Machine::executed);
        reveal(Machine::executed_high);
        lemma_wrap16(self.cpu.SP - 2);
        lemma_wrap16(wrap16(self.cpu.SP - 2) + 2);
        lemma_pair(self.cpu.A, self.cpu.Flags, 0);
        lemma_pair(self.cpu.B, self.cpu.C, 0);
        lemma_pair(self.cpu.D, self.cpu.E, 0);
        lemma_pair(self.cpu.H, self.cpu.L, 0);
    }

    /// No instruction changes the cycle count.
    #[verifier::rlimit(60)]
    pub proof fn lemma_executed_clock(self, opcode: u8)
        ensures
            self.executed(opcode).clock == self.clock,
    {
        reveal(Machine::executed);
        reveal(Machine::executed_low);
        reveal(Machine::executed_high);
    }

    /// A step that is not held at a HLT counts the cycles of its opcode, which
    /// are at least 4 and at most `MAX_CLOCK`.
    pub proof fn lemma_stepped_clock(self)
        ensures
            self.halted() ==> self.stepped() == self,
            !self.halted() ==> self.stepped().clock == self.clock + opcode_clock(
                self.byte_at(self.cpu.PC),
            ),
            self.clock <= self.stepped().clock <= self.clock + MAX_CLOCK,
            !self.halted() ==> self.clock + 4 <= self.stepped().clock,
    {
        let opcode = self.byte_at(self.cpu.PC);
        self.fetched(opcode).lemma_executed_clock(opcode);
        lemma_opcode_bounds(opcode);
    }
}

/// The processor with its memory and devices, its cycle counter and the
/// counter value up to which it was told to run.
pub struct Interpreter<M: Memory, I: IODevices> {
    pub state: I8080State,
    pub devices: I,
    pub memory: M,
    pub clock_count: u64,
    pub target_clock: u64,
    pub debug: bool,
    pub breakpoints: HashSet<u16>,
    pub traced: Vec<Range<u16>>,
}

/// Why a run came back.
#[derive(Clone, Copy, Debug, PartialEq, Eq, Structural)]
pub enum RunOutcome {
    /// The cycle count reached the target.
    Finished,
    /// The interpreter is in debug mode and waits for a command.
    Paused,
    /// The program counter stands at a HLT.
    Halted,
}

impl<M: Memory, I: IODevices> View for Interpreter<M, I> {
    type V = Machine<M, I>;

    open spec fn view(&self) -> Machine<M, I> {
        Machine {
            cpu: self.state,
            memory: self.memory@,
            devices: self.devices@,
            clock: self.clock_count as int,
        }
    }
}

impl<M: Memory, I: IODevices> Interpreter<M, I> {
    /// What no instruction changes: the target of the run and the debugger's
    /// state.
    pub open spec fn settings(&self) -> (u64, bool, HashSet<u16>, Vec<Range<u16>>) {
        (self.target_clock, self.debug, self.breakpoints, self.traced)
    }

    /// Makes an interpreter that starts at the first of `entries`, with the
    /// code of the memory's ROM traced from all of them.
    pub fn new(devices: I, memory: M, entries: &[u16]) -> (interpreter: Self)
        requires
            entries@.len() > 0,
        ensures
            interpreter@ == (Machine::<M, I> {
                cpu: I8080State { PC: entries@[0], ..I8080State::initial() },
                memory: memory@,
                devices: devices@,
                clock: 0,
            }),
            interpreter.target_clock == 0,
            !interpreter.debug,
            interpreter.breakpoints@ == Set::<u16>::empty(),
            interpreter.traced@ == code_ranges(M::rom(memory@), entries@),
    {
        let mut memory = memory;
        let mut state = I8080State::new();
        state.set_PC(entries[0]);
        let rom = memory.get_rom();
        let traced = trace(rom.as_slice(), entries);
        Interpreter {
            state,
            devices,
            memory,
            clock_count: 0,
            target_clock: 0,
            debug: false,
            breakpoints: HashSet::new(),
            traced,
        }
    }

    pub fn get_opcode_size_and_clock(opcode: u8) -> (entry: (u8, u8))
        ensures
            entry.0 == opcode_size(opcode),
            entry.1 == opcode_clock(opcode),
            entry.0 <= 3,
            4 <= entry.1 <= MAX_CLOCK,
    {
        SIZE_AND_CLOCKS[opcode as usize]
    }

    fn operand(&self, index: u8) -> (value: u8)
        ensures
            value == self@.operand(index),
    {
        if index == 0 {
            self.state.B
        } else if index == 1 {
            self.state.C
        } else if index == 2 {
            self.state.D
        } else if index == 3 {
            self.state.E
        } else if index == 4 {
            self.state.H
        } else if index == 5 {
            self.state.L
        } else if index == 6 {
            self.memory.read(self.state.get_HL())
        } else {
            self.state.A
        }
    }

    fn store(&mut self, index: u8, value: u8)
        ensures
            final(self)@ == old(self)@.stored(index, value),
            final(self).settings() == old(self).settings(),
    {
        if index == 0 {
            self.state.B = value;
        } else if index == 1 {
            self.state.C = value;
        } else if index == 2 {
            self.state.D = value;
        } else if index == 3 {
            self.state.E = value;
        } else if index == 4 {
            self.state.H = value;
        } else if index == 5 {
            self.state.L = value;
        } else if index == 6 {
            let adress = self.state.get_HL();
            self.memory.write(adress, value);
        } else {
            self.state.A = value;
        }
    }

    fn immediate(&self) -> (value: u8)
        ensures
            value == self@.immediate(),
    {
        self.memory.read(self.state.PC.wrapping_sub(1))
    }

    fn immediate16(&self) -> (value: u16)
        ensures
            value == self@.immediate16(),
    {
        self.memory.read_u16(self.state.PC.wrapping_sub(2))
    }

    fn register_pair(&self, index: u8) -> (value: u16)
        ensures
            value == register_pair(self.state, index),
    {
        if index == 0 {
            self.state.get_BC()
        } else if index == 1 {
            self.state.get_DE()
        } else if index == 2 {
            self.state.get_HL()
        } else {
            self.state.get_SP()
        }
    }

    fn set_register_pair(&mut self, index: u8, value: u16)
        ensures
            final(self)@ == old(self)@.with_cpu(with_register_pair(old(self).state, index, value)),
            final(self).settings() == old(self).settings(),
    {
        if index == 0 {
            self.state.set_BC(value);
        } else if index == 1 {
            self.state.set_DE(value);
        } else if index == 2 {
            self.state.set_HL(value);
        } else {
            self.state.set_SP(value);
        }
    }

    fn alu(&mut self, operation: u8, value: u8)
        ensures
            final(self)@ == old(self)@.with_alu(operation, value),
            final(self).settings() == old(self).settings(),
    {
        let (a, flags) = alu_exec(operation, self.state.A, self.state.Flags, value);
        self.state.A = a;
        self.state.Flags = flags;
    }

    fn jump(&mut self, target: u16)
        ensures
            final(self)@ == old(self)@.jumped(target),
            final(self).settings() == old(self).settings(),
    {
        self.state.set_PC(target);
    }

    fn call(&mut self, target: u16)
        ensures
            final(self)@ == old(self)@.called(target),
            final(self).settings() == old(self).settings(),
    {
        let pc = self.state.get_PC();
        self.state.push_stack(pc, &mut self.memory);
        self.state.set_PC(target);
    }

    fn ret(&mut self)
        ensures
            final(self)@ == old(self)@.returned(),
            final(self).settings() == old(self).settings(),
    {
        let adress = self.state.pop_stack(&self.memory);
        self.state.set_PC(adress);
    }

    /// LXI, DAD, INX and DCX.
    #[verifier::rlimit(60)]
    fn interpret_pair(&mut self, opcode: u8)
        requires
            opcode < 0x40,
            opcode % 8 == 1 || opcode % 8 == 3,
        ensures
            final(self)@ == old(self)@.executed_low(opcode),
            final(self).settings() == old(self).settings(),
    {
        reveal(Machine::executed_low);
        let row: u8 = opcode / 8;
        let index: u8 = row / 2;
        if opcode % 8 == 1 {
            if row % 2 == 0 {
                let immediate = self.immediate16();
                self.set_register_pair(index, immediate);
            } else {
                let hl = self.state.get_HL();
                let value = self.register_pair(index);
                let sum: u32 = hl as u32 + value as u32;
                let low: u16 = if sum > 0xffff {
                    (sum - 0x10000) as u16
                } else {
                    sum as u16
                };
                proof {
                    lemma_wrap16(hl + value);
                }
                self.state.set_carry(sum > 0xffff);
                self.state.set_HL(low);
            }
        } else {
            let value = self.register_pair(index);
            proof {
                lemma_wrap16(value + 1);
                lemma_wrap16(value - 1);
            }
            if row % 2 == 0 {
                self.set_register_pair(index, value.wrapping_add(1));
            } else {
                self.set_register_pair(index, value.wrapping_sub(1));
            }
        }
    }

    /// STAX, LDAX, SHLD, LHLD, STA and LDA.
    #[verifier::rlimit(60)]
    fn interpret_transfer(&mut self, opcode: u8)
        requires
            opcode < 0x40,
            opcode % 8 == 2,
        ensures
            final(self)@ == old(self)@.executed_low(opcode),
            final(self).settings() == old(self).settings(),
    {
        reveal(Machine::executed_low);
        if opcode == 0x02 {
            let adress = self.state.get_BC();
            self.memory.write(adress, self.state.A);
        } else if opcode == 0x0a {
            let adress = self.state.get_BC();
            self.state.A = self.memory.read(adress);
        } else if opcode == 0x12 {
            let adress = self.state.get_DE();
            self.memory.write(adress, self.state.A);
        } else if opcode == 0x1a {
            let adress = self.state.get_DE();
            self.state.A = self.memory.read(adress);
        } else if opcode == 0x22 {
            let adress = self.immediate16();
            self.memory.write(adress, self.state.L);
            self.memory.write(adress.wrapping_add(1), self.state.H);
        } else if opcode == 0x2a {
            let adress = self.immediate16();
            self.state.L = self.memory.read(adress);
            self.state.H = self.memory.read(adress.wrapping_add(1));
        } else if opcode == 0x32 {
            let adress = self.immediate16();
            self.memory.write(adress, self.state.A);
        } else {
            let adress = self.immediate16();
            self.state.A = self.memory.read(adress);
        }
    }

    /// INR and DCR.
    #[verifier::rlimit(60)]
    fn interpret_increment(&mut self, opcode: u8)
        requires
            opcode < 0x40,
            opcode % 8 == 4 || opcode % 8 == 5,
        ensures
            final(self)@ == old(self)@.executed_low(opcode),
            final(self).settings() == old(self).settings(),
    {
        reveal(Machine::executed_low);
        let row: u8 = opcode / 8;
        let value = self.operand(row);
        proof {
            lemma_wrap8(value + 1);
            lemma_wrap8(value - 1);
        }
        if opcode % 8 == 4 {
            let result = value.wrapping_add(1);
            self.state.set_flags_ex(result, value % 16 == 15);
            self.store(row, result);
        } else {
            let result = value.wrapping_sub(1);
            self.state.set_flags_ex(result, value % 16 == 0);
            self.store(row, result);
        }
    }

    fn interpret_low(&mut self, opcode: u8)
        requires
            opcode < 0x40,
        ensures
            final(self)@ == old(self)@.executed_low(opcode),
            final(self).settings() == old(self).settings(),
    {
        reveal(Machine::executed_low);
        let column: u8 = opcode % 8;
        if column == 1 || column == 3 {
            self.interpret_pair(opcode);
        } else if column == 2 {
            self.interpret_transfer(opcode);
        } else if column == 4 || column == 5 {
            self.interpret_increment(opcode);
        } else if column == 6 {
            let immediate = self.immediate();
            self.store(opcode / 8, immediate);
        } else if column == 7 {
            let (a, flags) = accumulator_exec(opcode / 8, self.state.A, self.state.Flags);
            self.state.A = a;
            self.state.Flags = flags;
        }
    }

    #[verifier::rlimit(60)]
    fn interpret_high(&mut self, opcode: u8)
        requires
            opcode >= 0xc0,
        ensures
            final(self)@ == old(self)@.executed_high(opcode),
            final(self).settings() == old(self).settings(),
    {
        reveal(Machine::executed_high);
        let column: u8 = opcode % 8;
        let row: u8 = (opcode / 8) % 8;
        if column == 0 {
            if condition_exec(self.state.Flags, row) {
                self.ret();
            }
        } else if column == 1 {
            if row % 2 == 0 {
                let value = self.state.pop_stack(&self.memory);
                if row == 6 {
                    self.state.set_PSW(value);
                } else {
                    self.set_register_pair(row / 2, value);
                }
            } else if row == 1 {
                self.ret();
            } else if row == 5 {
                let target = self.state.get_HL();
                self.jump(target);
            } else if row == 7 {
                let value = self.state.get_HL();
                self.state.set_SP(value);
            }
        } else if column == 2 {
            if condition_exec(self.state.Flags, row) {
                let target = self.immediate16();
                self.jump(target);
            }
        } else if column == 3 {
            if row == 0 {
                let target = self.immediate16();
                self.jump(target);
            } else if row == 2 {
                let device = self.immediate();
                self.devices.write(device, self.state.A);
            } else if row == 3 {
                let device = self.immediate();
                self.state.A = self.devices.read(device);
            } else if row == 4 {
                let sp = self.state.get_SP();
                let high = self.memory.read(sp.wrapping_add(1));
                let low = self.memory.read(sp);
                self.memory.write(sp.wrapping_add(1), self.state.H);
                self.memory.write(sp, self.state.L);
                self.state.H = high;
                self.state.L = low;
            } else if row == 5 {
                let de = self.state.get_DE();
                let hl = self.state.get_HL();
                self.state.set_DE(hl);
                self.state.set_HL(de);
            } else if row == 6 {
                self.state.interrupt_enabled = false;
            } else if row == 7 {
                self.state.interrupt_enabled = true;
            }
        } else if column == 4 {
            if condition_exec(self.state.Flags, row) {
                let target = self.immediate16();
                self.call(target);
            }
        } else if column == 5 {
            if row % 2 == 0 {
                let value = if row == 6 {
                    self.state.get_PSW()
                } else {
                    self.register_pair(row / 2)
                };
                self.state.push_stack(value, &mut self.memory);
            } else if row == 1 {
                let target = self.immediate16();
                self.call(target);
            }
        } else if column == 6 {
            let immediate = self.immediate();
            self.alu(row, immediate);
        } else {
            self.call((row * 8) as u16);
        }
    }

    /// Runs the instruction that `opcode` names, the program counter being
    /// past it already.
    pub fn interpret_opcode(&mut self, opcode: u8)
        ensures
            final(self)@ == old(self)@.executed(opcode),
            final(self).settings() == old(self).settings(),
    {
        reveal(Machine::executed);
        if opcode < 0x40 {
            self.interpret_low(opcode);
        } else if opcode < 0x80 {
            if opcode != HLT {
                let value = self.operand(opcode % 8);
                self.store((opcode / 8) % 8, value);
            }
        } else if opcode < 0xc0 {
            let value = self.operand(opcode % 8);
            self.alu((opcode / 8) % 8, value);
        } else {
            self.interpret_high(opcode);
        }
    }

    /// Fetches the instruction at the program counter and runs it. Returns
    /// whether it did: at a HLT nothing happens.
    pub fn step(&mut self) -> (ran: bool)
        requires
            old(self).clock_count + MAX_CLOCK <= u64::MAX,
        ensures
            final(self)@ == old(self)@.stepped(),
            ran == !old(self)@.halted(),
            final(self).settings() == old(self).settings(),
    {
        let opcode = self.memory.read(self.state.get_PC());
        if opcode == HLT {
            return false;
        }
        let (offset, clock) = Self::get_opcode_size_and_clock(opcode);
        self.state.set_PC(self.state.get_PC().wrapping_add(offset as u16));
        self.clock_count += clock as u64;
        self.interpret_opcode(opcode);
        true
    }

    /// Offers `opcode` as an interrupt: it runs at once, with no fetch, if
    /// interrupts are enabled, and is dropped if they are not.
    pub fn interrupt(&mut self, opcode: u8)
        requires
            old(self).clock_count + MAX_CLOCK <= u64::MAX,
        ensures
            final(self)@ == old(self)@.interrupted(opcode),
            final(self).settings() == old(self).settings(),
    {
        if self.state.interrupt_enabled {
            let (_, clock) = Self::get_opcode_size_and_clock(opcode);
            self.state.interrupt_enabled = false;
            self.clock_count += clock as u64;
            self.interpret_opcode(opcode);
        }
    }

    pub fn enter_debug_mode(&mut self)
        ensures
            final(self)@ == old(self)@,
            final(self).settings() == (
                old(self).target_clock,
                true,
                old(self).breakpoints,
                old(self).traced,
            ),
    {
        self.debug = true;
    }

    pub fn leave_debug_mode(&mut self)
        ensures
            final(self)@ == old(self)@,
            final(self).settings() == (
                old(self).target_clock,
                false,
                old(self).breakpoints,
                old(self).traced,
            ),
    {
        self.debug = false;
    }

    pub fn add_breakpoint(&mut self, adress: u16)
        ensures
            final(self)@ == old(self)@,
            final(self).target_clock == old(self).target_clock,
            final(self).debug == old(self).debug,
            final(self).traced == old(self).traced,
            final(self).breakpoints@ == old(self).breakpoints@.insert(adress),
    {
        broadcast use vstd::std_specs::hash::group_hash_axioms;

        self.breakpoints.insert(adress);
    }

    /// Runs one instruction as `step` does, and enters debug mode if that
    /// leaves the program counter on a breakpoint.
    pub fn step_and_check(&mut self) -> (ran: bool)
        requires
            old(self).clock_count + MAX_CLOCK <= u64::MAX,
        ensures
            final(self)@ == old(self)@.stepped(),
            ran == !old(self)@.halted(),
            final(self).target_clock == old(self).target_clock,
            final(self).breakpoints == old(self).breakpoints,
            final(self).traced == old(self).traced,
            final(self).debug == (old(self).debug || (ran && old(self).breakpoints@.contains(
                final(self).state.PC,
            ))),
    {
        broadcast use vstd::std_specs::hash::group_hash_axioms;

        let ran = self.step();
        if ran && self.breakpoints.contains(&self.state.PC) {
            self.debug = true;
        }
        ran
    }

    /// Runs on towards the target that `run` has set. Comes back at once in
    /// debug mode; else when the cycle count has reached the target, at a
    /// HLT, or in debug mode after an instruction that left the program
    /// counter on a breakpoint.
    #[verifier::rlimit(60)]
    pub fn resume(&mut self) -> (outcome: RunOutcome)
        requires
            old(self).target_clock + MAX_CLOCK <= u64::MAX,
        ensures
            final(self).target_clock == old(self).target_clock,
            final(self).breakpoints == old(self).breakpoints,
            final(self).traced == old(self).traced,
            (final(self)@, final(self).debug) == old(self)@.resumed(
                old(self).debug,
                old(self).target_clock as int,
                old(self).breakpoints@,
            ),
            outcome == final(self)@.outcome(final(self).debug, final(self).target_clock as int),
    {
        let ghost target = self.target_clock as int;
        let ghost breakpoints = self.breakpoints@;
        let ghost start = self@;
        let ghost mut moved = false;
        loop
            invariant
                self.target_clock == old(self).target_clock,
                self.target_clock + MAX_CLOCK <= u64::MAX,
                self.breakpoints == old(self).breakpoints,
                self.traced == old(self).traced,
                target == self.target_clock,
                breakpoints == self.breakpoints@,
                start == old(self)@,
                !moved ==> self@ == start && self.debug == old(self).debug,
                moved ==> !old(self).debug && old(self).clock_count < target && !start.halted(),
                moved ==> self.debug == breakpoints.contains(self.state.PC),
                moved && !self.debug ==> self@.ran(target, breakpoints) == start.ran(
                    target,
                    breakpoints,
                ),
                moved && self.debug ==> self@ == start.ran(target, breakpoints),
            ensures
                self.target_clock == old(self).target_clock,
                self.breakpoints == old(self).breakpoints,
                self.traced == old(self).traced,
                (self@, self.debug) == start.resumed(old(self).debug, target, breakpoints),
                self.clock_count < self.target_clock && !self.debug ==> self@.halted(),
            decreases self.target_clock - self.clock_count + MAX_CLOCK,
        {
            if self.clock_count >= self.target_clock || self.debug {
                break;
            }
            proof {
                self@.lemma_stepped_clock();
            }
            if !self.step_and_check() {
                break;
            }
            proof {
                moved = true;
            }
        }
        if self.clock_count >= self.target_clock {
            RunOutcome::Finished
        } else if self.debug {
            RunOutcome::Paused
        } else {
            RunOutcome::Halted
        }
    }

    /// Moves the target on by `number_of_clocks` cycles and runs towards it.
    pub fn run(&mut self, number_of_clocks: u32) -> (outcome: RunOutcome)
        requires
            old(self).target_clock + number_of_clocks + MAX_CLOCK <= u64::MAX,
        ensures
            final(self).target_clock == old(self).target_clock + number_of_clocks,
            final(self).breakpoints == old(self).breakpoints,
            final(self).traced == old(self).traced,
            (final(self)@, final(self).debug) == old(self)@.resumed(
                old(self).debug,
                old(self).target_clock + number_of_clocks,
                old(self).breakpoints@,
            ),
            outcome == final(self)@.outcome(final(self).debug, final(self).target_clock as int),
    {
        self.target_clock = self.target_clock + number_of_clocks as u64;
        self.resume()
    }

    /// Runs instructions until the program counter is `adress`, but no more
    /// than `RUNTO_LIMIT` of them. Returns whether the program counter got
    /// there.
    #[verifier::rlimit(60)]
    pub fn runto(&mut self, adress: u16) -> (reached: bool)
        requires
            old(self).clock_count + RUNTO_LIMIT * MAX_CLOCK <= u64::MAX,
        ensures
            final(self)@ == old(self)@.ran_to(adress, RUNTO_LIMIT as nat),
            reached == (final(self).state.PC == adress),
            final(self).settings() == old(self).settings(),
    {
        let mut left: u32 = RUNTO_LIMIT;
        while left > 0 && self.state.PC != adress
            invariant
                left <= RUNTO_LIMIT,
                self.clock_count + left * MAX_CLOCK <= u64::MAX,
                self@.ran_to(adress, left as nat) == old(self)@.ran_to(adress, RUNTO_LIMIT as nat),
                self.settings() == old(self).settings(),
            decreases left,
        {
            proof {
                self@.lemma_stepped_clock();
            }
            self.step();
            left -= 1;
        }
        self.state.PC == adress
    }

    /// What the debugger shows before it asks for a command: the code
    /// around the program counter and the registers.
    pub fn debug_view(&mut self) -> (text: String)
        ensures
            final(self)@ == old(self)@,
            final(self).settings() == old(self).settings(),
            text@ == "\n"@ + around(old(self).traced@, M::rom(old(self).memory@), old(self).state.PC)
                + "\n"@ + old(self).state.state_text(),
    {
        let rom = self.memory.get_rom();
        let mut text = String::new();
        text.append("\n");
        let window = dissasembly_around(&self.traced, rom.as_slice(), self.state.PC);
        text.append(window.as_str());
        text.append("\n");
        let registers = self.state.print_state();
        text.append(registers.as_str());
        text
    }
}

} // verus!

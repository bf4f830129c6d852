use intel8080::interpreter::{Interpreter, RunOutcome, SIZE_AND_CLOCKS};
use intel8080::space_invaders::{SpaceInvadersDevices, SpaceInvadersMemory};
use intel8080::I8080State;

const SIZES: [u8; 256] = [
    1, 3, 1, 1, 1, 1, 2, 1, 0, 1, 1, 1, 1, 1, 2, 1,
    0, 3, 1, 1, 1, 1, 2, 1, 0, 1, 1, 1, 1, 1, 2, 1,
    0, 3, 3, 1, 1, 1, 2, 1, 0, 1, 3, 1, 1, 1, 2, 1,
    0, 3, 3, 1, 1, 1, 2, 1, 0, 1, 3, 1, 1, 1, 2, 1,
    1, 1, 1, 1, 1, 1, 1, 1, 1, 1, 1, 1, 1, 1, 1, 1,
    1, 1, 1, 1, 1, 1, 1, 1, 1, 1, 1, 1, 1, 1, 1, 1,
    1, 1, 1, 1, 1, 1, 1, 1, 1, 1, 1, 1, 1, 1, 1, 1,
    1, 1, 1, 1, 1, 1, 1, 1, 1, 1, 1, 1, 1, 1, 1, 1,
    1, 1, 1, 1, 1, 1, 1, 1, 1, 1, 1, 1, 1, 1, 1, 1,
    1, 1, 1, 1, 1, 1, 1, 1, 1, 1, 1, 1, 1, 1, 1, 1,
    1, 1, 1, 1, 1, 1, 1, 1, 1, 1, 1, 1, 1, 1, 1, 1,
    1, 1, 1, 1, 1, 1, 1, 1, 1, 1, 1, 1, 1, 1, 1, 1,
    1, 1, 3, 3, 3, 1, 2, 1, 1, 1, 3, 0, 3, 3, 2, 1,
    1, 1, 3, 2, 3, 1, 2, 1, 1, 0, 3, 2, 3, 0, 2, 1,
    1, 1, 3, 1, 3, 1, 2, 1, 1, 1, 3, 1, 3, 0, 2, 1,
    1, 1, 3, 1, 3, 1, 2, 1, 1, 1, 3, 1, 3, 0, 2, 1,
];

const CLOCKS: [u8; 256] = [
    4, 10, 7, 5, 5, 5, 7, 4, 4, 10, 7, 5, 5, 5, 7, 4,
    4, 10, 7, 5, 5, 5, 7, 4, 4, 10, 7, 5, 5, 5, 7, 4,
    4, 10, 16, 5, 5, 5, 7, 4, 4, 10, 16, 5, 5, 5, 7, 4,
    4, 10, 13, 5, 10, 10, 10, 4, 4, 10, 13, 5, 5, 5, 7, 4,
    5, 5, 5, 5, 5, 5, 7, 5, 5, 5, 5, 5, 5, 5, 7, 5,
    5, 5, 5, 5, 5, 5, 7, 5, 5, 5, 5, 5, 5, 5, 7, 5,
    5, 5, 5, 5, 5, 5, 7, 5, 5, 5, 5, 5, 5, 5, 7, 5,
    7, 7, 7, 7, 7, 7, 7, 7, 5, 5, 5, 5, 5, 5, 7, 5,
    4, 4, 4, 4, 4, 4, 7, 4, 4, 4, 4, 4, 4, 4, 7, 4,
    4, 4, 4, 4, 4, 4, 7, 4, 4, 4, 4, 4, 4, 4, 7, 4,
    4, 4, 4, 4, 4, 4, 7, 4, 4, 4, 4, 4, 4, 4, 7, 4,
    4, 4, 4, 4, 4, 4, 7, 4, 4, 4, 4, 4, 4, 4, 7, 4,
    5, 10, 10, 10, 11, 11, 7, 11, 5, 10, 10, 10, 11, 17, 7, 11,
    5, 10, 10, 10, 11, 11, 7, 11, 5, 10, 10, 10, 11, 17, 7, 11,
    5, 10, 10, 18, 11, 11, 7, 11, 5, 5, 10, 4, 11, 17, 7, 11,
    5, 10, 10, 4, 11, 11, 7, 11, 5, 5, 10, 4, 11, 17, 7, 11,
];

type Cpu = Interpreter<SpaceInvadersMemory, SpaceInvadersDevices>;

/// A board with `program` at 0x0100 in ROM, the processor there, and the
/// stack pointer at 0x2400.
fn board(program: &[u8]) -> Cpu {
    let mut memory = [0u8; 0x4000];
    memory[0x100..0x100 + program.len()].copy_from_slice(program);
    let mut cpu = Interpreter::new(
        SpaceInvadersDevices::new([0x0f, 0x08, 0x00]),
        SpaceInvadersMemory { memory },
        &[0x100],
    );
    cpu.state.SP = 0x2400;
    cpu
}

fn holds(flags: u8, code: u8) -> bool {
    match code {
        0 => flags & 0x40 == 0,
        1 => flags & 0x40 != 0,
        2 => flags & 0x01 == 0,
        3 => flags & 0x01 != 0,
        4 => flags & 0x04 == 0,
        5 => flags & 0x04 != 0,
        6 => flags & 0x80 == 0,
        _ => flags & 0x80 != 0,
    }
}

#[test]
fn table_matches_the_data_sheet() {
    for opcode in 0..256 {
        assert_eq!(SIZE_AND_CLOCKS[opcode], (SIZES[opcode], CLOCKS[opcode]));
        assert_eq!(Cpu::get_opcode_size_and_clock(opcode as u8), (SIZES[opcode], CLOCKS[opcode]));
    }
    assert_eq!(SIZE_AND_CLOCKS[0x00], (1, 4));
    assert_eq!(SIZE_AND_CLOCKS[0x01], (3, 10));
    assert_eq!(SIZE_AND_CLOCKS[0x3e], (2, 7));
    assert_eq!(SIZE_AND_CLOCKS[0xcd], (3, 17));
    assert_eq!(SIZE_AND_CLOCKS[0xe3], (1, 18));
    assert_eq!(SIZE_AND_CLOCKS[0x08], (0, 4));
}

#[test]
fn every_opcode_moves_the_program_counter_and_the_clock() {
    for flags in [0x02u8, 0xd7u8] {
        for opcode in 0..=255u8 {
            if opcode == 0x76 {
                continue;
            }
            let mut cpu = board(&[opcode, 0x34, 0x22]);
            cpu.memory.memory[0x2400] = 0x78;
            cpu.memory.memory[0x2401] = 0x20;
            cpu.state.H = 0x20;
            cpu.state.L = 0x50;
            cpu.state.Flags = flags;
            assert!(cpu.step());
            let code = (opcode >> 3) & 7;
            let next = 0x100 + SIZES[opcode as usize] as u16;
            let expected = if opcode == 0xc3 || opcode == 0xcd {
                0x2234
            } else if opcode & 0xc7 == 0xc2 || opcode & 0xc7 == 0xc4 {
                if holds(flags, code) { 0x2234 } else { next }
            } else if opcode == 0xc9 {
                0x2078
            } else if opcode & 0xc7 == 0xc0 {
                if holds(flags, code) { 0x2078 } else { next }
            } else if opcode & 0xc7 == 0xc7 {
                (opcode & 0x38) as u16
            } else if opcode == 0xe9 {
                0x2050
            } else {
                next
            };
            assert_eq!(cpu.state.PC, expected, "opcode {:02x}", opcode);
            assert_eq!(cpu.clock_count, CLOCKS[opcode as usize] as u64, "opcode {:02x}", opcode);
        }
    }
}

#[test]
fn push_then_pop_gives_every_value_back() {
    for (push, pop) in [(0xc5u8, 0xc1u8), (0xd5, 0xd1), (0xe5, 0xe1), (0xf5, 0xf1)] {
        let mut cpu = board(&[push, pop]);
        for value in 0..=0xffffu16 {
            cpu.state.PC = 0x100;
            cpu.state.set_BC(value);
            cpu.state.set_DE(value);
            cpu.state.set_HL(value);
            cpu.state.set_PSW(value);
            let before = cpu.state;
            assert!(cpu.step());
            assert_eq!(cpu.state.SP, 0x23fe);
            assert_eq!(cpu.memory.memory[0x23fe], value as u8);
            assert_eq!(cpu.memory.memory[0x23ff], (value >> 8) as u8);
            cpu.state.set_BC(0);
            cpu.state.set_DE(0);
            cpu.state.set_HL(0);
            cpu.state.set_PSW(0);
            assert!(cpu.step());
            assert_eq!(cpu.state.SP, 0x2400);
            let got = match push {
                0xc5 => cpu.state.get_BC(),
                0xd5 => cpu.state.get_DE(),
                0xe5 => cpu.state.get_HL(),
                _ => cpu.state.get_PSW(),
            };
            assert_eq!(got, value);
            assert_eq!(before.SP, 0x2400);
        }
    }
}

#[test]
fn stack_pointer_wraps() {
    let mut cpu = board(&[0xc5, 0xc1]);
    cpu.state.SP = 0x0001;
    cpu.state.set_BC(0xbeef);
    cpu.step();
    assert_eq!(cpu.state.SP, 0xffff);
    // 0xffff mirrors 0x3fff in RAM, and 0x0000 is ROM
    assert_eq!(cpu.memory.memory[0x3fff], 0xef);
    assert_eq!(cpu.memory.memory[0x0000], 0x00);
    cpu.step();
    assert_eq!(cpu.state.SP, 0x0001);
    assert_eq!(cpu.state.get_BC(), 0x00ef);
}

#[test]
fn new_state_is_reset() {
    let state = I8080State::new();
    assert_eq!(state.A, 0);
    assert_eq!(state.Flags, 0x02);
    assert_eq!((state.B, state.C, state.D, state.E, state.H, state.L), (0, 0, 0, 0, 0, 0));
    assert_eq!(state.get_SP(), 0);
    assert_eq!(state.get_PC(), 0);
    assert!(!state.interrupt_enabled);
    let cpu = board(&[]);
    assert_eq!(cpu.state.PC, 0x100);
    assert_eq!(cpu.clock_count, 0);
    assert_eq!(cpu.target_clock, 0);
    assert!(!cpu.debug);
    assert!(cpu.breakpoints.is_empty());
}

#[test]
fn register_pairs_are_high_then_low() {
    let mut state = I8080State::new();
    state.set_BC(0x1234);
    state.set_DE(0x5678);
    state.set_HL(0x9abc);
    state.set_PSW(0xdef0);
    state.set_SP(0x1111);
    state.set_PC(0x2222);
    assert_eq!((state.B, state.C), (0x12, 0x34));
    assert_eq!((state.D, state.E), (0x56, 0x78));
    assert_eq!((state.H, state.L), (0x9a, 0xbc));
    assert_eq!((state.A, state.Flags), (0xde, 0xf0));
    assert_eq!(state.get_BC(), 0x1234);
    assert_eq!(state.get_DE(), 0x5678);
    assert_eq!(state.get_HL(), 0x9abc);
    assert_eq!(state.get_PSW(), 0xdef0);
    assert_eq!(state.get_SP(), 0x1111);
    assert_eq!(state.get_PC(), 0x2222);
}

#[test]
fn moves_between_registers_and_memory() {
    // MOV B,A; MOV M,B; MOV C,M; MVI M,0x99; MOV D,M
    let mut cpu = board(&[0x47, 0x70, 0x4e, 0x36, 0x99, 0x56]);
    cpu.state.A = 0x5a;
    cpu.state.set_HL(0x2100);
    cpu.step();
    assert_eq!(cpu.state.B, 0x5a);
    cpu.step();
    assert_eq!(cpu.memory.memory[0x2100], 0x5a);
    cpu.step();
    assert_eq!(cpu.state.C, 0x5a);
    cpu.step();
    assert_eq!(cpu.memory.memory[0x2100], 0x99);
    cpu.step();
    assert_eq!(cpu.state.D, 0x99);
    assert_eq!(cpu.clock_count, 5 + 7 + 7 + 10 + 7);
}

#[test]
fn increments_leave_carry_alone() {
    // INR A; DCR A; DCR A; INR M
    let mut cpu = board(&[0x3c, 0x3d, 0x3d, 0x34]);
    cpu.state.A = 0xff;
    cpu.state.Flags = 0x03;
    cpu.step();
    assert_eq!(cpu.state.A, 0x00);
    assert_eq!(cpu.state.Flags, 0x02 | 0x01 | 0x04 | 0x10 | 0x40);
    cpu.step();
    assert_eq!(cpu.state.A, 0xff);
    assert_eq!(cpu.state.Flags, 0x02 | 0x01 | 0x04 | 0x10 | 0x80);
    cpu.step();
    assert_eq!(cpu.state.A, 0xfe);
    assert_eq!(cpu.state.Flags, 0x02 | 0x01 | 0x80);
    cpu.state.set_HL(0x2200);
    cpu.memory.memory[0x2200] = 0x0f;
    cpu.step();
    assert_eq!(cpu.memory.memory[0x2200], 0x10);
    assert_eq!(cpu.state.Flags, 0x02 | 0x01 | 0x10);
}

#[test]
fn sixteen_bit_arithmetic() {
    // LXI H,0xffff; LXI B,0x0001; DAD B; INX B; DCX H; DCX H; LXI SP,0x1234; DAD SP
    let mut cpu = board(&[
        0x21, 0xff, 0xff, 0x01, 0x01, 0x00, 0x09, 0x03, 0x2b, 0x2b, 0x31, 0x34, 0x12, 0x39,
    ]);
    cpu.state.Flags = 0xd6;
    cpu.step();
    cpu.step();
    cpu.step();
    assert_eq!(cpu.state.get_HL(), 0x0000);
    assert_eq!(cpu.state.Flags, 0xd7);
    cpu.step();
    assert_eq!(cpu.state.get_BC(), 0x0002);
    cpu.step();
    assert_eq!(cpu.state.get_HL(), 0xffff);
    cpu.step();
    assert_eq!(cpu.state.get_HL(), 0xfffe);
    assert_eq!(cpu.state.Flags, 0xd7);
    cpu.step();
    cpu.step();
    assert_eq!(cpu.state.get_HL(), 0x1232);
    assert!(cpu.state.on_carry());
    cpu.state.PC = 0x106;
    cpu.step();
    assert_eq!(cpu.state.get_HL(), 0x1234);
    assert!(!cpu.state.on_carry());
    assert_eq!(cpu.state.Flags, 0xd6);
}

#[test]
fn loads_and_stores() {
    // STA 0x2010; LDA 0x2011; SHLD 0x2020; LHLD 0x2030; STAX B; LDAX D
    let mut cpu = board(&[
        0x32, 0x10, 0x20, 0x3a, 0x11, 0x20, 0x22, 0x20, 0x20, 0x2a, 0x30, 0x20, 0x02, 0x1a,
    ]);
    cpu.state.A = 0x77;
    cpu.memory.memory[0x2011] = 0x88;
    cpu.step();
    assert_eq!(cpu.memory.memory[0x2010], 0x77);
    cpu.step();
    assert_eq!(cpu.state.A, 0x88);
    cpu.state.set_HL(0xabcd);
    cpu.step();
    assert_eq!(cpu.memory.memory[0x2020], 0xcd);
    assert_eq!(cpu.memory.memory[0x2021], 0xab);
    cpu.memory.memory[0x2030] = 0x11;
    cpu.memory.memory[0x2031] = 0x22;
    cpu.step();
    assert_eq!(cpu.state.get_HL(), 0x2211);
    cpu.state.set_BC(0x2040);
    cpu.step();
    assert_eq!(cpu.memory.memory[0x2040], 0x88);
    cpu.state.set_DE(0x2041);
    cpu.memory.memory[0x2041] = 0x99;
    cpu.step();
    assert_eq!(cpu.state.A, 0x99);
    assert_eq!(cpu.clock_count, 13 + 13 + 16 + 16 + 7 + 7);
}

#[test]
fn write_to_rom_is_lost() {
    // STA 0x0005
    let mut cpu = board(&[0x32, 0x05, 0x00]);
    cpu.state.A = 0x77;
    cpu.step();
    assert_eq!(cpu.memory.memory[0x0005], 0x00);
}

#[test]
fn rotates() {
    // RLC RRC RAL RAR
    let mut cpu = board(&[0x07, 0x0f, 0x17, 0x1f]);
    cpu.state.A = 0x81;
    cpu.state.Flags = 0xd6;
    cpu.step();
    assert_eq!(cpu.state.A, 0x03);
    assert_eq!(cpu.state.Flags, 0xd7);
    cpu.step();
    assert_eq!(cpu.state.A, 0x81);
    assert_eq!(cpu.state.Flags, 0xd7);
    cpu.step();
    assert_eq!(cpu.state.A, 0x03);
    assert_eq!(cpu.state.Flags, 0xd7);
    cpu.state.A = 0x02;
    cpu.step();
    assert_eq!(cpu.state.A, 0x81);
    assert_eq!(cpu.state.Flags, 0xd6);
}

#[test]
fn complement_and_carry_instructions() {
    // CMA STC CMC CMC
    let mut cpu = board(&[0x2f, 0x37, 0x3f, 0x3f]);
    cpu.state.A = 0x5a;
    cpu.state.Flags = 0x46;
    cpu.step();
    assert_eq!(cpu.state.A, 0xa5);
    assert_eq!(cpu.state.Flags, 0x46);
    cpu.step();
    assert_eq!(cpu.state.Flags, 0x47);
    cpu.step();
    assert_eq!(cpu.state.Flags, 0x46);
    cpu.step();
    assert_eq!(cpu.state.Flags, 0x47);
    assert_eq!(cpu.state.A, 0xa5);
}

#[test]
fn exchanges() {
    // XCHG XTHL SPHL PCHL
    let mut cpu = board(&[0xeb, 0xe3, 0xf9, 0xe9]);
    cpu.state.set_DE(0x1122);
    cpu.state.set_HL(0x3344);
    cpu.step();
    assert_eq!(cpu.state.get_DE(), 0x3344);
    assert_eq!(cpu.state.get_HL(), 0x1122);
    cpu.memory.memory[0x2400] = 0xaa;
    cpu.memory.memory[0x2401] = 0xbb;
    cpu.step();
    assert_eq!(cpu.state.get_HL(), 0xbbaa);
    assert_eq!(cpu.memory.memory[0x2400], 0x22);
    assert_eq!(cpu.memory.memory[0x2401], 0x11);
    assert_eq!(cpu.state.SP, 0x2400);
    cpu.step();
    assert_eq!(cpu.state.SP, 0xbbaa);
    cpu.step();
    assert_eq!(cpu.state.PC, 0xbbaa);
    assert_eq!(cpu.clock_count, 4 + 18 + 5 + 5);
}

#[test]
fn calls_and_returns() {
    // CALL 0x0110 ... at 0x0110: RET
    let mut program = [0u8; 0x20];
    program[0] = 0xcd;
    program[1] = 0x10;
    program[2] = 0x01;
    program[0x10] = 0xc9;
    let mut cpu = board(&program);
    cpu.step();
    assert_eq!(cpu.state.PC, 0x0110);
    assert_eq!(cpu.state.SP, 0x23fe);
    assert_eq!(cpu.memory.memory[0x23fe], 0x03);
    assert_eq!(cpu.memory.memory[0x23ff], 0x01);
    cpu.step();
    assert_eq!(cpu.state.PC, 0x0103);
    assert_eq!(cpu.state.SP, 0x2400);
    assert_eq!(cpu.clock_count, 17 + 10);
}

#[test]
fn conditional_call_and_return_cost_the_same_taken_or_not() {
    // CZ 0x0110 with zero clear, then with zero set; at 0x0110: RNZ, RZ
    let mut program = [0u8; 0x20];
    program[0] = 0xcc;
    program[1] = 0x10;
    program[2] = 0x01;
    program[3] = 0xcc;
    program[4] = 0x10;
    program[5] = 0x01;
    program[0x10] = 0xc0;
    program[0x11] = 0xc8;
    let mut cpu = board(&program);
    cpu.state.Flags = 0x02;
    cpu.step();
    assert_eq!(cpu.state.PC, 0x0103);
    assert_eq!(cpu.state.SP, 0x2400);
    assert_eq!(cpu.clock_count, 11);
    cpu.state.Flags = 0x42;
    cpu.step();
    assert_eq!(cpu.state.PC, 0x0110);
    assert_eq!(cpu.state.SP, 0x23fe);
    assert_eq!(cpu.clock_count, 22);
    cpu.step();
    assert_eq!(cpu.state.PC, 0x0111);
    assert_eq!(cpu.clock_count, 27);
    cpu.step();
    assert_eq!(cpu.state.PC, 0x0106);
    assert_eq!(cpu.state.SP, 0x2400);
    assert_eq!(cpu.clock_count, 32);
}

#[test]
fn restart_pushes_and_jumps() {
    let mut cpu = board(&[0xef]);
    cpu.step();
    assert_eq!(cpu.state.PC, 0x0028);
    assert_eq!(cpu.memory.memory[0x23fe], 0x01);
    assert_eq!(cpu.memory.memory[0x23ff], 0x01);
}

#[test]
fn interrupt_latch_follows_ei_and_di() {
    // EI; NOP; DI; EI
    let mut cpu = board(&[0xfb, 0x00, 0xf3, 0xfb]);
    cpu.step();
    assert!(cpu.state.interrupt_enabled);
    cpu.step();
    assert!(cpu.state.interrupt_enabled);
    cpu.step();
    assert!(!cpu.state.interrupt_enabled);
    cpu.step();
    assert!(cpu.state.interrupt_enabled);
    cpu.interrupt(0x00);
    assert!(!cpu.state.interrupt_enabled);
    assert_eq!(cpu.state.PC, 0x104);
    cpu.state.interrupt_enabled = true;
    cpu.interrupt(0xfb);
    assert!(cpu.state.interrupt_enabled);
}

#[test]
fn undefined_opcode_moves_nothing_but_the_clock() {
    let mut cpu = board(&[0x08]);
    let before = cpu.state;
    assert!(cpu.step());
    assert_eq!(cpu.state, before);
    assert_eq!(cpu.clock_count, 4);
}

#[test]
fn ports_reach_the_devices() {
    // MVI A,3; OUT 2; MVI A,0xaa; OUT 4; MVI A,0xff; OUT 4; IN 3; IN 1; IN 9
    let mut cpu = board(&[
        0x3e, 0x03, 0xd3, 0x02, 0x3e, 0xaa, 0xd3, 0x04, 0x3e, 0xff, 0xd3, 0x04, 0xdb, 0x03, 0xdb,
        0x01, 0xdb, 0x09,
    ]);
    for _ in 0..7 {
        cpu.step();
    }
    assert_eq!(cpu.devices.shift_amount, 3);
    assert_eq!(cpu.devices.shift_register, 0xffaa);
    assert_eq!(cpu.state.A, 0xfd);
    cpu.step();
    assert_eq!(cpu.state.A, 0x08);
    cpu.step();
    assert_eq!(cpu.state.A, 0x00);
}

#[test]
fn run_spends_its_budget_and_carries_the_rest_over() {
    let mut cpu = board(&[]);
    assert_eq!(cpu.run(100), RunOutcome::Finished);
    assert_eq!(cpu.clock_count, 100);
    assert_eq!(cpu.state.PC, 0x100 + 25);
    assert_eq!(cpu.run(10), RunOutcome::Finished);
    assert_eq!(cpu.target_clock, 110);
    assert_eq!(cpu.clock_count, 112);
    assert_eq!(cpu.run(10), RunOutcome::Finished);
    assert_eq!(cpu.clock_count, 120);
    assert_eq!(cpu.run(0), RunOutcome::Finished);
    assert_eq!(cpu.clock_count, 120);
}

#[test]
fn run_stops_at_a_halt() {
    let mut cpu = board(&[0x00, 0x00, 0x76]);
    assert_eq!(cpu.run(1000), RunOutcome::Halted);
    assert_eq!(cpu.state.PC, 0x102);
    assert_eq!(cpu.clock_count, 8);
    assert_eq!(cpu.target_clock, 1000);
    assert_eq!(cpu.resume(), RunOutcome::Halted);
    assert_eq!(cpu.clock_count, 8);
}

#[test]
fn run_pauses_on_a_breakpoint() {
    let mut cpu = board(&[]);
    cpu.add_breakpoint(0x103);
    assert_eq!(cpu.run(1000), RunOutcome::Paused);
    assert_eq!(cpu.state.PC, 0x103);
    assert!(cpu.debug);
    assert_eq!(cpu.clock_count, 12);
    assert_eq!(cpu.resume(), RunOutcome::Paused);
    assert_eq!(cpu.clock_count, 12);
    assert!(cpu.step_and_check());
    assert_eq!(cpu.state.PC, 0x104);
    cpu.leave_debug_mode();
    assert_eq!(cpu.resume(), RunOutcome::Finished);
    assert_eq!(cpu.clock_count, 1000);
    assert!(!cpu.debug);
}

#[test]
fn run_in_debug_mode_waits() {
    let mut cpu = board(&[]);
    cpu.enter_debug_mode();
    assert_eq!(cpu.run(100), RunOutcome::Paused);
    assert_eq!(cpu.clock_count, 0);
    assert_eq!(cpu.target_clock, 100);
    assert_eq!(cpu.state.PC, 0x100);
}

#[test]
fn runto_stops_at_the_address_or_gives_up() {
    let mut cpu = board(&[]);
    assert!(cpu.runto(0x110));
    assert_eq!(cpu.state.PC, 0x110);
    assert_eq!(cpu.clock_count, 64);
    // JMP 0x2000 at 0x2000 never gets anywhere else
    cpu.memory.memory[0x2000] = 0xc3;
    cpu.memory.memory[0x2001] = 0x00;
    cpu.memory.memory[0x2002] = 0x20;
    cpu.state.PC = 0x2000;
    assert!(!cpu.runto(0x110));
    assert_eq!(cpu.state.PC, 0x2000);
    assert_eq!(cpu.clock_count, 64 + 100_000 * 10);
}

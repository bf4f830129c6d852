use intel8080::dissasembler::{
    dissasembly, dissasembly_around, dissasembly_opcode, get_u16, get_u8, listing_of, size_of,
    trace, trace_opcode, MNEMONICS,
};
use intel8080::interpreter::SIZE_AND_CLOCKS;

fn rom() -> Vec<u8> {
    let mut rom = vec![0u8; 0x20];
    rom[0..3].copy_from_slice(&[0x31, 0x00, 0x24]); // LXI SP,0x2400
    rom[3..6].copy_from_slice(&[0xcd, 0x10, 0x00]); // CALL 0x0010
    rom[6..9].copy_from_slice(&[0xc3, 0x00, 0x00]); // JMP 0x0000
    rom[9] = 0xff;
    rom[0x10..0x12].copy_from_slice(&[0x3e, 0x07]); // MVI A,7
    rom[0x12] = 0xc9; // RET
    rom
}

#[test]
fn trace_follows_calls_and_stops_at_jumps_and_returns() {
    assert_eq!(trace(&rom(), &[0]), vec![0..9, 0x10..0x13]);
    assert_eq!(trace(&rom(), &[0x10]), vec![0x10..0x13]);
    assert_eq!(trace(&rom(), &[0x10, 0, 0x10]), vec![0..9, 0x10..0x13]);
}

#[test]
fn trace_joins_code_that_meets() {
    // from 9: RST 7 falls through the NOPs into the code at 0x10
    assert_eq!(trace(&rom(), &[9]), vec![9..0x13]);
    assert_eq!(trace(&rom(), &[0, 9]), vec![0..0x13]);
    assert_eq!(trace(&rom(), &[0x13]), vec![0x13..0x20]);
}

#[test]
fn trace_of_nothing_is_empty() {
    assert_eq!(trace(&[], &[0, 8, 16]), vec![]);
    assert_eq!(trace(&rom(), &[]), vec![]);
    assert_eq!(trace(&rom(), &[0x20, 0x4000, 0xffff]), vec![]);
}

#[test]
fn trace_leaves_out_what_does_not_fit() {
    // a jump whose operand is cut off by the end of the rom is no instruction
    assert_eq!(trace(&[0x00, 0x00, 0xc3, 0x00], &[0]), vec![0..2]);
    assert_eq!(trace(&[0x00, 0x00, 0xc3, 0x00, 0x00], &[0]), vec![0..5]);
    // a target beyond the rom, and one from 0x4000 on, are not followed
    assert_eq!(trace(&[0xc3, 0x00, 0x30, 0x00], &[0]), vec![0..3]);
    let mut big = vec![0xc9u8; 0x5000];
    big[0..3].copy_from_slice(&[0xc3, 0x00, 0x40]);
    assert_eq!(trace(&big, &[0]), vec![0..3]);
    big[0..3].copy_from_slice(&[0xc3, 0xff, 0x3f]);
    assert_eq!(trace(&big, &[0]), vec![0..3, 0x3fff..0x4000]);
}

#[test]
fn trace_follows_conditional_jumps_both_ways() {
    // JZ 0x0008; RET; ...; at 8: HLT; RET
    let rom = [0xca, 0x08, 0x00, 0xc9, 0xff, 0xff, 0xff, 0xff, 0x76, 0xc9, 0xff];
    assert_eq!(trace(&rom, &[0]), vec![0..4, 8..10]);
    // CZ names no target for the trace, an undefined opcode ends the code
    let rom = [0xcc, 0x08, 0x00, 0x08, 0x00, 0x00, 0x00, 0x00, 0x76, 0xc9];
    assert_eq!(trace(&rom, &[0]), vec![0..4]);
}

#[test]
fn trace_reads_code_that_overlaps() {
    // LXI B swallows the MVI at 1 when read from 0; the jump leads into it
    let rom = [0x01, 0x3e, 0x07, 0xc3, 0x01, 0x00];
    assert_eq!(trace(&rom, &[0]), vec![0..6]);
    let rom = [0xc3, 0x04, 0x00, 0x01, 0x3e, 0x07, 0xc9];
    assert_eq!(trace(&rom, &[0]), vec![0..3, 4..7]);
}

#[test]
fn traced_ranges_are_sorted_and_apart() {
    let mut rom = vec![0xc9u8; 0x400];
    let mut seed = 12345u32;
    for byte in rom.iter_mut() {
        seed = seed.wrapping_mul(1103515245).wrapping_add(12345);
        *byte = (seed >> 16) as u8;
    }
    let ranges = trace(&rom, &[0, 8, 16]);
    assert!(!ranges.is_empty());
    assert_eq!(ranges[0].start, 0);
    for range in &ranges {
        assert!(range.start < range.end);
        assert!(range.end as usize <= rom.len());
    }
    for pair in ranges.windows(2) {
        assert!(pair[0].end < pair[1].start);
    }
    for entry in [0u16, 8, 16] {
        assert!(ranges.iter().any(|range| range.contains(&entry)));
    }
}

#[test]
fn opcodes_are_classified() {
    let rom = rom();
    assert_eq!(trace_opcode(0, &rom), (3, None));
    assert_eq!(trace_opcode(3, &rom), (3, Some(0x0010)));
    assert_eq!(trace_opcode(6, &rom), (11, Some(0x0000)));
    assert_eq!(trace_opcode(9, &rom), (1, None));
    assert_eq!(trace_opcode(0x10, &rom), (2, None));
    assert_eq!(trace_opcode(0x12, &rom), (9, None));
    assert_eq!(trace_opcode(0, &[0x08]), (9, None));
    assert_eq!(trace_opcode(0, &[0xda, 0x34, 0x12]), (3, Some(0x1234)));
    assert_eq!(trace_opcode(0, &[0xdc, 0x34, 0x12]), (3, None));
    assert_eq!(trace_opcode(0, &[0xe9]), (1, None));
    assert_eq!(get_u8(3, &rom), 0x10);
    assert_eq!(get_u16(0, &rom), 0x2400);
    for opcode in 0..=255u8 {
        let size = SIZE_AND_CLOCKS[opcode as usize].0;
        assert_eq!(size_of(opcode), if size == 0 { 1 } else { size });
    }
}

#[test]
fn instructions_are_written_with_their_operands() {
    let line = |bytes: &[u8]| dissasembly_opcode(0, bytes);
    assert_eq!(line(&[0x00]), ("NOP        \n".to_string(), 1));
    assert_eq!(line(&[0x41]), ("MOV  B, C\n".to_string(), 1));
    assert_eq!(line(&[0x7e]), ("MOV  A, M\n".to_string(), 1));
    assert_eq!(line(&[0x70]), ("MOV  M, B\n".to_string(), 1));
    assert_eq!(line(&[0x76]), ("HLT        \n".to_string(), 1));
    assert_eq!(line(&[0x3e, 0x0f]), ("MVI  A 0f\n".to_string(), 2));
    assert_eq!(line(&[0x36, 0xa0]), ("MVI  M a0\n".to_string(), 2));
    assert_eq!(line(&[0x34]), ("INR  M     \n".to_string(), 1));
    assert_eq!(line(&[0x05]), ("DCR  B     \n".to_string(), 1));
    assert_eq!(line(&[0x86]), ("ADD  M     \n".to_string(), 1));
    assert_eq!(line(&[0xbf]), ("CMP  A     \n".to_string(), 1));
    assert_eq!(line(&[0xc6, 0x01]), ("ADI 01\n".to_string(), 2));
    assert_eq!(line(&[0xfe, 0xff]), ("CPI ff\n".to_string(), 2));
    assert_eq!(line(&[0xc3, 0xcd, 0xab]), ("JMP  abcd\n".to_string(), 3));
    assert_eq!(line(&[0xca, 0x34, 0x12]), ("JZ   1234\n".to_string(), 3));
    assert_eq!(line(&[0xcd, 0x34, 0x12]), ("CALL 1234\n".to_string(), 3));
    assert_eq!(line(&[0xe4, 0x34, 0x12]), ("CPO  1234\n".to_string(), 3));
    assert_eq!(line(&[0xc9]), ("RET        \n".to_string(), 1));
    assert_eq!(line(&[0xf8]), ("RM         \n".to_string(), 1));
    assert_eq!(line(&[0xd7]), ("RST 010   \n".to_string(), 1));
    assert_eq!(line(&[0xdb, 0x03]), ("IN 03\n".to_string(), 2));
    assert_eq!(line(&[0xd3, 0x05]), ("OUT 05\n".to_string(), 2));
    assert_eq!(line(&[0x31, 0x00, 0x24]), ("LXI  SP 2400\n".to_string(), 3));
    assert_eq!(line(&[0x01, 0x00, 0x24]), ("LXI  B 2400\n".to_string(), 3));
    assert_eq!(line(&[0xf5]), ("PUSH PSW   \n".to_string(), 1));
    assert_eq!(line(&[0xe1]), ("POP  H     \n".to_string(), 1));
    assert_eq!(line(&[0x32, 0x00, 0x24]), ("STA 2400\n".to_string(), 3));
    assert_eq!(line(&[0x2a, 0x00, 0x24]), ("LHLD  2400\n".to_string(), 3));
    assert_eq!(line(&[0x39]), ("DAD  SP    \n".to_string(), 1));
    assert_eq!(line(&[0x1a]), ("LDAX D     \n".to_string(), 1));
    assert_eq!(line(&[0x08]), ("<UNDEFINED>\n".to_string(), 1));
    assert_eq!(line(&[0xfd]), ("<UNDEFINED>\n".to_string(), 1));
    assert_eq!(dissasembly_opcode(3, &rom()), ("CALL 0010\n".to_string(), 3));
    for opcode in 0..=255usize {
        let size = SIZE_AND_CLOCKS[opcode].0;
        assert_eq!(MNEMONICS[opcode] == "<UNDEFINED>", size == 0);
        assert_eq!(MNEMONICS[opcode].ends_with(' ') && MNEMONICS[opcode].len() <= 8, size > 1);
    }
}

#[test]
fn listing_shows_each_range() {
    let expected = "0000 : 31    LXI  SP 2400\n\
                    0003 : cd    CALL 0010\n\
                    0006 : c3    JMP  0000\n\
                    \n...\n\n\
                    0010 : 3e    MVI  A 07\n\
                    0012 : c9    RET        \n";
    assert_eq!(dissasembly(&rom(), &[0]), expected);
    assert_eq!(listing_of(&rom(), &vec![0..9, 0x10..0x13]), expected);
    assert_eq!(dissasembly(&rom(), &[]), "");
    assert_eq!(
        listing_of(&rom(), &vec![0x10..0x11]),
        "0010 : 3e    MVI  A 07\n"
    );
    // an instruction that does not fit in the rom ends the listing
    assert_eq!(listing_of(&[0x00, 0xc3, 0x00], &vec![0..3]), "0000 : 00    NOP        \n");
}

#[test]
fn window_shows_the_code_around_an_address() {
    let traced = vec![0..9, 0x10..0x13];
    let blank = "      :\n";
    let expected = blank.repeat(5)
        + "0000  : LXI  SP 2400\n"
        + "0003 >> CALL 0010\n"
        + "0006  : JMP  0000\n"
        + &blank.repeat(5);
    assert_eq!(dissasembly_around(&traced, &rom(), 3), expected);
    let expected = blank.repeat(6) + "0010 >> MVI  A 07\n" + "0012  : RET        \n" + &blank.repeat(5);
    assert_eq!(dissasembly_around(&traced, &rom(), 0x10), expected);
}

#[test]
fn window_says_when_no_instruction_starts_at_the_address() {
    let traced = vec![0..9, 0x10..0x13];
    let blank = "      :\n";
    let expected = "dissasembly fails, starts = 0000, i = 0003, pc = 0001\n".to_string()
        + &blank.repeat(5)
        + "0000  : LXI  SP 2400\n"
        + "0003  : CALL 0010\n"
        + "0006  : JMP  0000\n"
        + &blank.repeat(5);
    assert_eq!(dissasembly_around(&traced, &rom(), 1), expected);
}

#[test]
fn window_outside_the_code_shows_seven_lines() {
    let traced = vec![0..9, 0x10..0x13];
    let expected = "out of traced memory\n\
                    000c >> NOP        \n\
                    000d  : NOP        \n\
                    000e  : NOP        \n\
                    000f  : NOP        \n\
                    0010  : MVI  A 07\n\
                    0012  : RET        \n\
                    0013  : NOP        \n";
    assert_eq!(dissasembly_around(&traced, &rom(), 0x0c), expected);
    assert_eq!(dissasembly_around(&traced, &rom(), 0x1f), "out of traced memory\n001f >> NOP        \n");
    assert_eq!(dissasembly_around(&traced, &rom(), 0x20), "out of traced memory\n");
    assert_eq!(dissasembly_around(&vec![], &[], 0), "out of traced memory\n");
}

#[test]
fn window_keeps_six_lines_before_and_six_after() {
    let rom = vec![0u8; 0x40];
    let traced = vec![0..0x40];
    let text = dissasembly_around(&traced, &rom, 0x20);
    let lines: Vec<&str> = text.lines().collect();
    assert_eq!(lines.len(), 13);
    assert_eq!(lines[0], "001a  : NOP        ");
    assert_eq!(lines[6], "0020 >> NOP        ");
    assert_eq!(lines[12], "0026  : NOP        ");
    let text = dissasembly_around(&traced, &rom, 0x3e);
    let lines: Vec<&str> = text.lines().collect();
    assert_eq!(lines.len(), 13);
    assert_eq!(lines[0], "0038  : NOP        ");
    assert_eq!(lines[6], "003e >> NOP        ");
    assert_eq!(lines[7], "003f  : NOP        ");
    assert_eq!(lines[8], "      :");
    assert_eq!(lines[12], "      :");
}

use intel8080::debugger::{parse_command, Command, Keyword, ShellAction};
use intel8080::driver::{round, Driver, Message, Wait, NO_INTERRUPT};
use intel8080::interpreter::Interpreter;
use intel8080::test_machine::{TestDevices, TestMemory, FAILED, OPERATIONAL};
use intel8080::intel8080::{IODevices, Memory};

fn machine(program: &[u8]) -> Interpreter<TestMemory, TestDevices> {
    let mut memory = [0u8; 0x4000];
    memory[..program.len()].copy_from_slice(program);
    Interpreter::new(TestDevices::new(), TestMemory::new(memory), &[0])
}

#[test]
fn lines_are_read_as_commands() {
    assert_eq!(parse_command(b""), Command::Step);
    assert_eq!(parse_command(b"  \t\r\n"), Command::Step);
    assert_eq!(parse_command(b"run\n"), Command::Run);
    assert_eq!(parse_command(b"running"), Command::Run);
    assert_eq!(parse_command(b"run 12"), Command::Run);
    assert_eq!(parse_command(b"runto 1a2b\n"), Command::RunTo(0x1a2b));
    assert_eq!(parse_command(b"  runto   1A2B  "), Command::RunTo(0x1a2b));
    assert_eq!(parse_command(b"runtox 12"), Command::RunTo(0x12));
    assert_eq!(parse_command(b"runto ffff"), Command::RunTo(0xffff));
    assert_eq!(parse_command(b"runto 0000000010"), Command::RunTo(0x10));
    assert_eq!(parse_command(b"bp +ff"), Command::Breakpoint(0xff));
    assert_eq!(parse_command(b"bp 0010 extra"), Command::Breakpoint(0x10));
    assert_eq!(parse_command(b"interrupt cf"), Command::Interrupt(0xcf));
    assert_eq!(parse_command(b"interrupt\x0cD7"), Command::Interrupt(0xd7));
}

#[test]
fn lines_that_are_no_commands_are_told_apart() {
    assert_eq!(parse_command(b"runto"), Command::MissingArgument(Keyword::RunTo));
    assert_eq!(parse_command(b"bp \n"), Command::MissingArgument(Keyword::Breakpoint));
    assert_eq!(parse_command(b"interrupt"), Command::MissingArgument(Keyword::Interrupt));
    assert_eq!(parse_command(b"runto xyz"), Command::InvalidArgument(Keyword::RunTo));
    assert_eq!(parse_command(b"runto 10000"), Command::InvalidArgument(Keyword::RunTo));
    assert_eq!(parse_command(b"runto 12g"), Command::InvalidArgument(Keyword::RunTo));
    assert_eq!(parse_command(b"runto -1"), Command::InvalidArgument(Keyword::RunTo));
    assert_eq!(parse_command(b"bp 0x10"), Command::InvalidArgument(Keyword::Breakpoint));
    assert_eq!(parse_command(b"bp +"), Command::InvalidArgument(Keyword::Breakpoint));
    assert_eq!(parse_command(b"bp ++1"), Command::InvalidArgument(Keyword::Breakpoint));
    assert_eq!(parse_command(b"interrupt 100"), Command::InvalidArgument(Keyword::Interrupt));
    assert_eq!(
        parse_command(b"interrupt fffffffffffffffffffffffffffff"),
        Command::InvalidArgument(Keyword::Interrupt)
    );
    assert_eq!(parse_command(b"help"), Command::Unknown);
    assert_eq!(parse_command(b"ru"), Command::Unknown);
    assert_eq!(parse_command(b"RUN"), Command::Unknown);
    assert_eq!(parse_command(b"b p"), Command::Unknown);
}

#[test]
fn numbers_agree_with_the_standard_reading() {
    for value in [0u32, 1, 9, 0xa, 0xff, 0x100, 0xabc, 0xffff, 0x10000, 0xfffff] {
        for text in [format!("{:x}", value), format!("{:X}", value), format!("+{:05x}", value)] {
            let line = format!("bp {}", text);
            let expected = match u16::from_str_radix(&text, 16) {
                Ok(adress) => Command::Breakpoint(adress),
                Err(_) => Command::InvalidArgument(Keyword::Breakpoint),
            };
            assert_eq!(parse_command(line.as_bytes()), expected);
            let line = format!("interrupt {}", text);
            let expected = match u8::from_str_radix(&text, 16) {
                Ok(opcode) => Command::Interrupt(opcode),
                Err(_) => Command::InvalidArgument(Keyword::Interrupt),
            };
            assert_eq!(parse_command(line.as_bytes()), expected);
        }
    }
}

#[test]
fn commands_act_on_the_interpreter() {
    let mut cpu = machine(&[0xfb, 0x00, 0x00, 0x00]);
    cpu.enter_debug_mode();
    assert_eq!(cpu.command(Command::Step), ShellAction::Go);
    assert_eq!(cpu.state.PC, 0);
    assert!(cpu.debug);
    assert_eq!(cpu.command(Command::Breakpoint(0x0003)), ShellAction::Ask);
    assert!(cpu.breakpoints.contains(&3));
    assert_eq!(cpu.command(Command::RunTo(0x0002)), ShellAction::Ask);
    assert_eq!(cpu.state.PC, 2);
    assert_eq!(cpu.clock_count, 8);
    assert!(cpu.debug);
    assert_eq!(cpu.command(Command::Interrupt(0xd7)), ShellAction::Go);
    assert_eq!(cpu.state.PC, 0x10);
    assert_eq!(cpu.command(Command::Unknown), ShellAction::Ask);
    assert_eq!(cpu.command(Command::MissingArgument(Keyword::RunTo)), ShellAction::Ask);
    assert_eq!(cpu.command(Command::InvalidArgument(Keyword::Interrupt)), ShellAction::Ask);
    assert_eq!(cpu.state.PC, 0x10);
    assert_eq!(cpu.command(Command::Run), ShellAction::Go);
    assert!(!cpu.debug);
}

#[test]
fn debugger_shows_code_and_registers() {
    let mut cpu = machine(&[0x3e, 0x42, 0x76]);
    cpu.state.SP = 0x2400;
    cpu.step();
    let blank = "      :\n";
    let expected = "\n".to_string()
        + &blank.repeat(5)
        + "0000  : MVI  A 42\n"
        + "0002 >> HLT        \n"
        + "0003  : NOP        \n"
        + "0004  : NOP        \n"
        + "0005  : NOP        \n"
        + "0006  : NOP        \n"
        + "0007  : NOP        \n"
        + "0008  : NOP        \n"
        + "\n"
        + "B  C  D  E  H  L  A  SZ_A_P_C <- Flags\n"
        + "00 00 00 00 00 00 42 00000010\n"
        + "PC: 0002   SP: 2400\n";
    assert_eq!(cpu.debug_view(), expected);
    assert_eq!(cpu.traced, vec![0..0x4000]);
}

#[test]
fn driver_keeps_one_interrupt_and_toggles_debug() {
    let mut driver = Driver::new(false);
    assert_eq!(driver.pending, NO_INTERRUPT);
    assert_eq!(driver.wait(), Wait::Poll);
    assert_eq!(driver.take_interrupt(), None);
    driver.receive(Message::Interrupt(0xcf));
    driver.receive(Message::Interrupt(0xd7));
    driver.receive(Message::Debug);
    assert_eq!(driver.wait(), Wait::Block);
    assert_eq!(driver.take_interrupt(), Some(0xd7));
    assert_eq!(driver.take_interrupt(), None);
    driver.receive(Message::Debug);
    assert_eq!(driver, Driver { debugging: false, pending: NO_INTERRUPT });
    driver.receive(Message::Interrupt(NO_INTERRUPT));
    assert_eq!(driver.take_interrupt(), None);
}

#[test]
fn driver_round_offers_the_interrupt_and_steps() {
    let mut program = [0u8; 0x20];
    program[0] = 0xfb; // EI
    program[0x10] = 0x3c; // INR A
    let mut cpu = machine(&program);
    cpu.state.SP = 0x2400;
    let mut driver = Driver::new(false);
    assert_eq!(round(&mut driver, &mut cpu), Wait::Poll);
    assert_eq!(cpu.state.PC, 1);
    driver.receive(Message::Interrupt(0xd7));
    driver.receive(Message::Debug);
    assert_eq!(round(&mut driver, &mut cpu), Wait::Block);
    assert_eq!(cpu.state.PC, 0x11);
    assert_eq!(cpu.state.A, 1);
    assert_eq!(cpu.clock_count, 4 + 11 + 5);
    assert_eq!(driver.pending, NO_INTERRUPT);
    // with interrupts disabled the interrupt is taken from the driver and dropped
    driver.receive(Message::Interrupt(0xcf));
    round(&mut driver, &mut cpu);
    assert_eq!(cpu.state.PC, 0x12);
    assert_eq!(driver.pending, NO_INTERRUPT);
}

#[test]
fn test_ports_collect_what_is_printed() {
    let mut devices = TestDevices::new();
    assert_eq!(devices.read(0), 0);
    assert_eq!(devices.read(2), 0);
    devices.write(2, b'O');
    devices.write(2, b'K');
    devices.write(9, b'!');
    assert_eq!(devices.take_output(), b"OK");
    devices.write(0, 0);
    assert_eq!(devices.take_output(), b"CPU HAS FAILED    ERROR EXIT=");
    devices.write(1, 0);
    assert_eq!(devices.take_output(), b"CPU IS OPERATIONAL");
    assert_eq!(FAILED, "CPU HAS FAILED    ERROR EXIT=");
    assert_eq!(OPERATIONAL, "CPU IS OPERATIONAL");
    assert!(!devices.finished);
    devices.write(3, 0);
    assert!(devices.finished);
    devices.write(2, b'x');
    devices.write(1, 0);
    devices.write(3, 0);
    assert_eq!(devices.take_output(), b"\n");
    assert!(devices.finished);
}

#[test]
fn test_memory_keeps_its_program() {
    let mut memory = TestMemory::new([0x11; 0x4000]);
    memory.write(0x05a3, 0x22);
    assert_eq!(memory.read(0x05a3), 0x11);
    memory.write(0x05a4, 0x22);
    assert_eq!(memory.read(0x05a4), 0x22);
    memory.write(0x3fff, 0x33);
    assert_eq!(memory.read(0x3fff), 0x33);
    memory.write(0x4000, 0x44);
    assert_eq!(memory.read(0x4000), 0x00);
    assert_eq!(memory.read(0xffff), 0x00);
    assert_eq!(memory.read_u16(0x3fff), 0x0033);
    assert_eq!(memory.take_refused(), vec![0x05a3, 0x4000]);
    assert_eq!(memory.take_refused(), vec![]);
    let rom = memory.get_rom();
    assert_eq!(rom.len(), 0x4000);
    assert_eq!(rom[0x05a4], 0x22);
    assert_eq!(rom[0], 0x11);
}

#[test]
fn test_program_prints_through_port_two() {
    // MVI A,'H'; OUT 2; MVI A,'i'; OUT 2; OUT 3; OUT 2; HLT
    let mut cpu = machine(&[0x3e, b'H', 0xd3, 0x02, 0x3e, b'i', 0xd3, 0x02, 0xd3, 0x03, 0xd3, 0x02, 0x76]);
    while cpu.step() {}
    assert_eq!(cpu.devices.output, b"Hi\n");
    assert!(cpu.devices.finished);
    assert_eq!(cpu.state.PC, 12);
}

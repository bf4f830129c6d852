//! The commands of the debugger: how a line of input is read, and what each
//! command does to the interpreter.

use crate::intel8080::{IODevices, Memory};
use crate::interpreter::{Interpreter, MAX_CLOCK, RUNTO_LIMIT};
use vstd::prelude::*;

verus! {

/// The commands that take a number.
#[derive(Clone, Copy, Debug, PartialEq, Eq, Structural)]
pub enum Keyword {
    RunTo,
    Interrupt,
    Breakpoint,
}

/// What a line of input asks for.
#[derive(Clone, Copy, Debug, PartialEq, Eq, Structural)]
pub enum Command {
    /// An empty line: run one instruction.
    Step,
    /// `run`: leave debug mode.
    Run,
    /// `runto` and an address: run until the program counter is there.
    RunTo(u16),
    /// `bp` and an address: stop whenever the program counter gets there.
    Breakpoint(u16),
    /// `interrupt` and an opcode: offer the opcode as an interrupt.
    Interrupt(u8),
    /// A command that takes a number, without one.
    MissingArgument(Keyword),
    /// A command that takes a number, with something else.
    InvalidArgument(Keyword),
    /// Anything else.
    Unknown,
}

/// What the debugger does after a command.
#[derive(Clone, Copy, Debug, PartialEq, Eq, Structural)]
pub enum ShellAction {
    /// Ask for another command.
    Ask,
    /// Run one instruction and go on.
    Go,
}

/// Whether a byte is white space: a blank, a tab, a line feed, a form feed
/// or a carriage return.
pub open spec fn is_space(byte: u8) -> bool {
    byte == 0x20 || byte == 0x09 || byte == 0x0a || byte == 0x0c || byte == 0x0d
}

/// The first place from `from` on that holds no white space.
pub open spec fn word_start(line: Seq<u8>, from: int) -> int
    decreases line.len() - from,
{
    if 0 <= from < line.len() && is_space(line[from]) {
        word_start(line, from + 1)
    } else {
        from
    }
}

/// The first place from `from` on that holds white space, or the end.
pub open spec fn word_end(line: Seq<u8>, from: int) -> int
    decreases line.len() - from,
{
    if 0 <= from < line.len() && !is_space(line[from]) {
        word_end(line, from + 1)
    } else {
        from
    }
}

/// The first word of what is left of `line` at `from`; empty if none is left.
pub open spec fn word_at(line: Seq<u8>, from: int) -> Seq<u8> {
    line.subrange(word_start(line, from), word_end(line, word_start(line, from)))
}

/// The value of a digit of base 16, in either case.
pub open spec fn digit_value(byte: u8) -> Option<int> {
    if 0x30 <= byte <= 0x39 {
        Some(byte - 0x30)
    } else if 0x61 <= byte <= 0x66 {
        Some(byte - 0x61 + 10)
    } else if 0x41 <= byte <= 0x46 {
        Some(byte - 0x41 + 10)
    } else {
        None
    }
}

/// The value of a row of digits of base 16; none if one of them is no digit.
pub open spec fn digits_value(digits: Seq<u8>) -> Option<int>
    decreases digits.len(),
{
    if digits.len() == 0 {
        Some(0)
    } else {
        match (digits_value(digits.drop_last()), digit_value(digits.last())) {
            (Some(high), Some(low)) => Some(high * 16 + low),
            _ => None,
        }
    }
}

/// The number that a word stands for in base 16: a plus sign, if the writer
/// likes, and at least one digit. None if the word is anything else, or the
/// number is above `most`.
pub open spec fn hex_number(word: Seq<u8>, most: int) -> Option<int> {
    let digits = if word.len() > 0 && word[0] == 0x2b {
        word.drop_first()
    } else {
        word
    };
    if digits.len() == 0 {
        None
    } else {
        match digits_value(digits) {
            Some(value) => if value <= most {
                Some(value)
            } else {
                None
            },
            None => None,
        }
    }
}

/// Whether `word` begins with `prefix`.
pub open spec fn begins_with(word: Seq<u8>, prefix: Seq<u8>) -> bool {
    prefix.len() <= word.len() && word.subrange(0, prefix.len() as int) == prefix
}

pub open spec fn runto_word() -> Seq<u8> {
    seq![0x72u8, 0x75u8, 0x6eu8, 0x74u8, 0x6fu8]
}

pub open spec fn interrupt_word() -> Seq<u8> {
    seq![0x69u8, 0x6eu8, 0x74u8, 0x65u8, 0x72u8, 0x72u8, 0x75u8, 0x70u8, 0x74u8]
}

pub open spec fn run_word() -> Seq<u8> {
    seq![0x72u8, 0x75u8, 0x6eu8]
}

pub open spec fn bp_word() -> Seq<u8> {
    seq![0x62u8, 0x70u8]
}

/// The command with a number, read from the second word of the line.
pub open spec fn with_argument(keyword: Keyword, word: Seq<u8>) -> Command {
    if word.len() == 0 {
        Command::MissingArgument(keyword)
    } else {
        match keyword {
            Keyword::Interrupt => match hex_number(word, 0xff) {
                Some(value) => Command::Interrupt(value as u8),
                None => Command::InvalidArgument(keyword),
            },
            Keyword::RunTo => match hex_number(word, 0xffff) {
                Some(value) => Command::RunTo(value as u16),
                None => Command::InvalidArgument(keyword),
            },
            Keyword::Breakpoint => match hex_number(word, 0xffff) {
                Some(value) => Command::Breakpoint(value as u16),
                None => Command::InvalidArgument(keyword),
            },
        }
    }
}

/// The command that a line stands for. The first word decides by how it
/// begins: `runto`, `interrupt`, `run` or `bp`, tried in this order; the
/// second word is the number, in base 16.
pub open spec fn command_of(line: Seq<u8>) -> Command {
    let first = word_at(line, 0);
    let second = word_at(line, word_end(line, word_start(line, 0)));
    if first.len() == 0 {
        Command::Step
    } else if begins_with(first, runto_word()) {
        with_argument(Keyword::RunTo, second)
    } else if begins_with(first, interrupt_word()) {
        with_argument(Keyword::Interrupt, second)
    } else if begins_with(first, run_word()) {
        Command::Run
    } else if begins_with(first, bp_word()) {
        with_argument(Keyword::Breakpoint, second)
    } else {
        Command::Unknown
    }
}

fn space(byte: u8) -> (yes: bool)
    ensures
        yes == is_space(byte),
{
    byte == 0x20 || byte == 0x09 || byte == 0x0a || byte == 0x0c || byte == 0x0d
}

/// Finds the word at `from`: its start and its end.
fn next_word(line: &[u8], from: usize) -> (bounds: (usize, usize))
    requires
        from <= line@.len(),
    ensures
        bounds.0 == word_start(line@, from as int),
        bounds.1 == word_end(line@, bounds.0 as int),
        from <= bounds.0 <= bounds.1 <= line@.len(),
        line@.subrange(bounds.0 as int, bounds.1 as int) == word_at(line@, from as int),
{
    let mut start = from;
    while start < line.len() && space(line[start])
        invariant
            from <= start <= line@.len(),
            word_start(line@, start as int) == word_start(line@, from as int),
        decreases line@.len() - start,
    {
        start += 1;
    }
    let mut end = start;
    while end < line.len() && !space(line[end])
        invariant
            start <= end <= line@.len(),
            word_end(line@, end as int) == word_end(line@, start as int),
        decreases line@.len() - end,
    {
        end += 1;
    }
    (start, end)
}

fn digit(byte: u8) -> (value: Option<u8>)
    ensures
        match value {
            Some(value) => digit_value(byte) == Some(value as int) && value < 16,
            None => digit_value(byte).is_none(),
        },
{
    if 0x30 <= byte && byte <= 0x39 {
        Some(byte - 0x30)
    } else if 0x61 <= byte && byte <= 0x66 {
        Some(byte - 0x61 + 10)
    } else if 0x41 <= byte && byte <= 0x46 {
        Some(byte - 0x41 + 10)
    } else {
        None
    }
}

/// A row of digits is worth no less than the digits it begins with.
proof fn lemma_digits_grow(digits: Seq<u8>, count: int)
    requires
        0 <= count <= digits.len(),
    ensures
        digits_value(digits).is_some() ==> digits_value(digits.subrange(0, count)).is_some()
            && 0 <= digits_value(digits.subrange(0, count)).unwrap() <= digits_value(
            digits,
        ).unwrap(),
    decreases digits.len() - count,
{
    if count == digits.len() {
        assert(digits.subrange(0, count) =~= digits);
        lemma_digits_sign(digits);
    } else {
        lemma_digits_grow(digits.drop_last(), count);
        assert(digits.drop_last().subrange(0, count) =~= digits.subrange(0, count));
    }
}

proof fn lemma_digits_sign(digits: Seq<u8>)
    ensures
        digits_value(digits).is_some() ==> digits_value(digits).unwrap() >= 0,
    decreases digits.len(),
{
    if digits.len() > 0 {
        lemma_digits_sign(digits.drop_last());
    }
}

/// Reads the number that the word from `start` to `end` stands for.
#[verifier::rlimit(60)]
fn parse_hex(line: &[u8], start: usize, end: usize, most: u16) -> (value: Option<u16>)
    requires
        start <= end <= line@.len(),
    ensures
        match value {
            Some(value) => hex_number(line@.subrange(start as int, end as int), most as int)
                == Some(value as int),
            None => hex_number(line@.subrange(start as int, end as int), most as int).is_none(),
        },
{
    let ghost word = line@.subrange(start as int, end as int);
    let first: usize = if start < end && line[start] == 0x2b {
        start + 1
    } else {
        start
    };
    let ghost digits = line@.subrange(first as int, end as int);
    assert(digits =~= if word.len() > 0 && word[0] == 0x2b {
        word.drop_first()
    } else {
        word
    });
    if first == end {
        return None;
    }
    let mut value: u32 = 0;
    let mut at = first;
    assert(digits.subrange(0, 0) =~= Seq::<u8>::empty());
    while at < end
        invariant
            first <= at <= end <= line@.len(),
            first < end,
            word == line@.subrange(start as int, end as int),
            digits == line@.subrange(first as int, end as int),
            digits == if word.len() > 0 && word[0] == 0x2b {
                word.drop_first()
            } else {
                word
            },
            digits_value(digits.subrange(0, at - first)) == Some(value as int),
            value <= most,
        decreases end - at,
    {
        let ghost prefix = digits.subrange(0, at - first + 1);
        proof {
            assert(prefix.drop_last() =~= digits.subrange(0, at - first));
            assert(prefix.last() == line@[at as int]);
            lemma_digits_grow(digits, at - first + 1);
        }
        match digit(line[at]) {
            Some(low) => {
                value = value * 16 + low as u32;
                assert(digits_value(prefix) == Some(value as int));
                if value > most as u32 {
                    assert(hex_number(word, most as int).is_none());
                    return None;
                }
            },
            None => {
                assert(digits_value(prefix).is_none());
                assert(hex_number(word, most as int).is_none());
                return None;
            },
        }
        at += 1;
    }
    assert(digits.subrange(0, at - first) =~= digits);
    Some(value as u16)
}

fn starts_with(line: &[u8], start: usize, end: usize, prefix: &[u8]) -> (yes: bool)
    requires
        start <= end <= line@.len(),
    ensures
        yes == begins_with(line@.subrange(start as int, end as int), prefix@),
{
    if prefix.len() > end - start {
        return false;
    }
    let ghost word = line@.subrange(start as int, end as int);
    let mut i: usize = 0;
    while i < prefix.len()
        invariant
            i <= prefix@.len() <= end - start,
            start <= end <= line@.len(),
            word == line@.subrange(start as int, end as int),
            forall|k: int| 0 <= k < i ==> word[k] == prefix@[k],
        decreases prefix@.len() - i,
    {
        if line[start + i] != prefix[i] {
            assert(word.subrange(0, prefix@.len() as int)[i as int] != prefix@[i as int]);
            return false;
        }
        i += 1;
    }
    assert(word.subrange(0, prefix@.len() as int) =~= prefix@);
    true
}

fn argument(keyword: Keyword, line: &[u8], start: usize, end: usize) -> (command: Command)
    requires
        start <= end <= line@.len(),
    ensures
        command == with_argument(keyword, line@.subrange(start as int, end as int)),
{
    if start == end {
        return Command::MissingArgument(keyword);
    }
    match keyword {
        Keyword::Interrupt => match parse_hex(line, start, end, 0xff) {
            Some(value) => Command::Interrupt(value as u8),
            None => Command::InvalidArgument(keyword),
        },
        Keyword::RunTo => match parse_hex(line, start, end, 0xffff) {
            Some(value) => Command::RunTo(value),
            None => Command::InvalidArgument(keyword),
        },
        Keyword::Breakpoint => match parse_hex(line, start, end, 0xffff) {
            Some(value) => Command::Breakpoint(value),
            None => Command::InvalidArgument(keyword),
        },
    }
}

/// Reads a line of input as a command.
pub fn parse_command(line: &[u8]) -> (command: Command)
    ensures
        command == command_of(line@),
{
    let (start, end) = next_word(line, 0);
    let (from, to) = next_word(line, end);
    let runto: [u8; 5] = [0x72, 0x75, 0x6e, 0x74, 0x6f];
    let interrupt: [u8; 9] = [0x69, 0x6e, 0x74, 0x65, 0x72, 0x72, 0x75, 0x70, 0x74];
    let run: [u8; 3] = [0x72, 0x75, 0x6e];
    let bp: [u8; 2] = [0x62, 0x70];
    assert(runto@ =~= runto_word());
    assert(interrupt@ =~= interrupt_word());
    assert(run@ =~= run_word());
    assert(bp@ =~= bp_word());
    if start == end {
        Command::Step
    } else if starts_with(line, start, end, runto.as_slice()) {
        argument(Keyword::RunTo, line, from, to)
    } else if starts_with(line, start, end, interrupt.as_slice()) {
        argument(Keyword::Interrupt, line, from, to)
    } else if starts_with(line, start, end, run.as_slice()) {
        Command::Run
    } else if starts_with(line, start, end, bp.as_slice()) {
        argument(Keyword::Breakpoint, line, from, to)
    } else {
        Command::Unknown
    }
}

impl<M: Memory, I: IODevices> Interpreter<M, I> {
    /// Carries out a command of the debugger, and says whether the debugger
    /// asks for another or lets the program go on.
    pub fn command(&mut self, command: Command) -> (action: ShellAction)
        requires
            old(self).clock_count + RUNTO_LIMIT * MAX_CLOCK <= u64::MAX,
        ensures
            final(self).target_clock == old(self).target_clock,
            final(self).traced == old(self).traced,
            match command {
                Command::Step => {
                    &&& action == ShellAction::Go
                    &&& final(self)@ == old(self)@
                    &&& final(self).debug == old(self).debug
                    &&& final(self).breakpoints == old(self).breakpoints
                },
                Command::Run => {
                    &&& action == ShellAction::Go
                    &&& final(self)@ == old(self)@
                    &&& !final(self).debug
                    &&& final(self).breakpoints == old(self).breakpoints
                },
                Command::Interrupt(opcode) => {
                    &&& action == ShellAction::Go
                    &&& final(self)@ == old(self)@.interrupted(opcode)
                    &&& final(self).debug == old(self).debug
                    &&& final(self).breakpoints == old(self).breakpoints
                },
                Command::RunTo(adress) => {
                    &&& action == ShellAction::Ask
                    &&& final(self)@ == old(self)@.ran_to(adress, RUNTO_LIMIT as nat)
                    &&& final(self).debug == old(self).debug
                    &&& final(self).breakpoints == old(self).breakpoints
                },
                Command::Breakpoint(adress) => {
                    &&& action == ShellAction::Ask
                    &&& final(self)@ == old(self)@
                    &&& final(self).debug == old(self).debug
                    &&& final(self).breakpoints@ == old(self).breakpoints@.insert(adress)
                },
                _ => {
                    &&& action == ShellAction::Ask
                    &&& final(self)@ == old(self)@
                    &&& final(self).debug == old(self).debug
                    &&& final(self).breakpoints == old(self).breakpoints
                },
            },
    {
        match command {
            Command::Step => ShellAction::Go,
            Command::Run => {
                self.leave_debug_mode();
                ShellAction::Go
            },
            Command::Interrupt(opcode) => {
                self.interrupt(opcode);
                ShellAction::Go
            },
            Command::RunTo(adress) => {
                let _ = self.runto(adress);
                ShellAction::Ask
            },
            Command::Breakpoint(adress) => {
                self.add_breakpoint(adress);
                ShellAction::Ask
            },
            _ => ShellAction::Ask,
        }
    }
}

} // verus!

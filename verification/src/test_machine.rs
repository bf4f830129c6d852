//! A machine for test programs: plain memory whose first bytes hold the
//! program and are kept from writes, and ports that collect what the
//! program prints.

use crate::intel8080::{IODevices, Memory};
use vstd::prelude::*;
use vstd::string::*;

verus! {

/// Below this address the test program stands: a write there is refused.
pub const CODE_END: u16 = 0x05a4;

/// What port 0 prints.
pub const FAILED: &'static str = "CPU HAS FAILED    ERROR EXIT=";

/// What port 1 prints.
pub const OPERATIONAL: &'static str = "CPU IS OPERATIONAL";

/// The ports of the test machine: what was printed so far, and whether the
/// program has asked to end.
pub struct TestDevices {
    pub output: Vec<u8>,
    pub finished: bool,
}

/// The ports of the test machine as plain values.
pub struct Printed {
    pub output: Seq<u8>,
    pub finished: bool,
}

impl View for TestDevices {
    type V = Printed;

    open spec fn view(&self) -> Printed {
        Printed { output: self.output@, finished: self.finished }
    }
}

impl TestDevices {
    pub fn new() -> (devices: TestDevices)
        ensures
            devices@ == (Printed { output: Seq::empty(), finished: false }),
    {
        TestDevices { output: Vec::new(), finished: false }
    }

    /// Hands out what was printed since the last call.
    pub fn take_output(&mut self) -> (output: Vec<u8>)
        ensures
            output@ == old(self)@.output,
            final(self)@ == (Printed { output: Seq::empty(), ..old(self)@ }),
    {
        let mut output: Vec<u8> = Vec::new();
        std::mem::swap(&mut output, &mut self.output);
        output
    }
}

impl IODevices for TestDevices {
    /// Every port reads 0.
    open spec fn input(state: Printed, device: u8) -> u8 {
        0
    }

    open spec fn after_read(state: Printed, device: u8) -> Printed {
        state
    }

    /// Port 0 prints that the processor has failed, port 1 that it works,
    /// port 2 the byte written. Port 3 prints a line end and ends the
    /// program: from then on nothing is printed.
    open spec fn after_write(state: Printed, device: u8, value: u8) -> Printed {
        if state.finished {
            state
        } else if device == 0 {
            Printed { output: state.output + FAILED.spec_bytes(), ..state }
        } else if device == 1 {
            Printed { output: state.output + OPERATIONAL.spec_bytes(), ..state }
        } else if device == 2 {
            Printed { output: state.output.push(value), ..state }
        } else if device == 3 {
            Printed { output: state.output.push(0x0a), finished: true }
        } else {
            state
        }
    }

    fn read(&mut self, device: u8) -> (value: u8) {
        0
    }

    fn write(&mut self, device: u8, value: u8) {
        if self.finished {
        } else if device == 0 {
            self.output.extend_from_slice(FAILED.as_bytes());
        } else if device == 1 {
            self.output.extend_from_slice(OPERATIONAL.as_bytes());
        } else if device == 2 {
            self.output.push(value);
        } else if device == 3 {
            self.output.push(0x0a);
            self.finished = true;
        }
        assert(self@.output =~= Self::after_write(old(self)@, device, value).output);
    }
}

/// The memory of the test machine, with the addresses of the writes it
/// refused.
pub struct TestMemory {
    pub memory: [u8; 0x4000],
    pub refused: Vec<u16>,
}

/// The memory of the test machine as plain values.
pub struct Stored {
    pub bytes: Seq<u8>,
    pub refused: Seq<u16>,
}

impl View for TestMemory {
    type V = Stored;

    open spec fn view(&self) -> Stored {
        Stored { bytes: self.memory@, refused: self.refused@ }
    }
}

impl TestMemory {
    pub fn new(memory: [u8; 0x4000]) -> (result: TestMemory)
        ensures
            result@ == (Stored { bytes: memory@, refused: Seq::empty() }),
    {
        TestMemory { memory, refused: Vec::new() }
    }

    /// Hands out the addresses of the writes refused since the last call.
    pub fn take_refused(&mut self) -> (refused: Vec<u16>)
        ensures
            refused@ == old(self)@.refused,
            final(self)@ == (Stored { refused: Seq::empty(), ..old(self)@ }),
    {
        let mut refused: Vec<u16> = Vec::new();
        std::mem::swap(&mut refused, &mut self.refused);
        refused
    }
}

impl Memory for TestMemory {
    /// An address above the memory reads 0.
    open spec fn byte_at(state: Stored, adress: u16) -> u8 {
        if adress < 0x4000 {
            state.bytes[adress as int]
        } else {
            0
        }
    }

    /// A write below `CODE_END` or above the memory is refused and noted.
    open spec fn after_write(state: Stored, adress: u16, value: u8) -> Stored {
        if CODE_END <= adress < 0x4000 {
            Stored { bytes: state.bytes.update(adress as int, value), ..state }
        } else {
            Stored { refused: state.refused.push(adress), ..state }
        }
    }

    open spec fn rom(state: Stored) -> Seq<u8> {
        state.bytes
    }

    fn read(&self, adress: u16) -> (value: u8) {
        if adress < 0x4000 {
            self.memory[adress as usize]
        } else {
            0
        }
    }

    fn write(&mut self, adress: u16, value: u8) {
        if CODE_END <= adress && adress < 0x4000 {
            self.memory[adress as usize] = value;
        } else {
            self.refused.push(adress);
        }
    }

    fn get_rom(&mut self) -> (rom: Vec<u8>) {
        let mut rom: Vec<u8> = Vec::with_capacity(0x4000);
        let mut i: usize = 0;
        while i < 0x4000
            invariant
                i <= 0x4000,
                rom@ == self.memory@.subrange(0, i as int),
            decreases 0x4000 - i,
        {
            rom.push(self.memory[i]);
            assert(self.memory@.subrange(0, i as int).push(self.memory@[i as int])
                =~= self.memory@.subrange(0, i + 1));
            i += 1;
        }
        assert(rom@ =~= self.memory@);
        rom
    }
}

} // verus!

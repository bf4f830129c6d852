//! The interpreter behind a channel: what a message does to it, and what it
//! does between two looks at the channel.

use crate::intel8080::{IODevices, Memory};
use crate::interpreter::{Interpreter, Machine, MAX_CLOCK};
use vstd::prelude::*;

verus! {

/// What the host sends to the interpreter.
#[derive(Clone, Copy, Debug, PartialEq, Eq, Structural)]
pub enum Message {
    /// Enter debug mode, or leave it.
    Debug,
    /// Offer an opcode as an interrupt.
    Interrupt(u8),
}

/// How the driver looks at the channel next.
#[derive(Clone, Copy, Debug, PartialEq, Eq, Structural)]
pub enum Wait {
    /// It takes a message if one is there and goes on if none is.
    Poll,
    /// It waits for a message.
    Block,
}

/// The opcode that stands for no interrupt.
pub const NO_INTERRUPT: u8 = 0x20;

/// What the driver keeps between messages: whether it is in debug mode, and
/// the one interrupt that waits, or `NO_INTERRUPT`.
#[derive(Clone, Copy, Debug, PartialEq, Eq, Structural)]
pub struct Driver {
    pub debugging: bool,
    pub pending: u8,
}

impl Driver {
    /// The driver after a message. `Debug` turns debug mode on or off. An
    /// interrupt takes the place of the one that waits.
    pub open spec fn received(self, message: Message) -> Driver {
        match message {
            Message::Debug => Driver { debugging: !self.debugging, ..self },
            Message::Interrupt(opcode) => Driver { pending: opcode, ..self },
        }
    }

    /// How the driver looks at the channel: in debug mode it waits.
    pub open spec fn waits(self) -> Wait {
        if self.debugging {
            Wait::Block
        } else {
            Wait::Poll
        }
    }

    pub fn new(debugging: bool) -> (driver: Driver)
        ensures
            driver == (Driver { debugging, pending: NO_INTERRUPT }),
    {
        Driver { debugging, pending: NO_INTERRUPT }
    }

    pub fn receive(&mut self, message: Message)
        ensures
            *final(self) == old(self).received(message),
    {
        match message {
            Message::Debug => {
                self.debugging = !self.debugging;
            },
            Message::Interrupt(opcode) => {
                self.pending = opcode;
            },
        }
    }

    /// Hands out the interrupt that waits, if one does, and forgets it.
    pub fn take_interrupt(&mut self) -> (opcode: Option<u8>)
        ensures
            *final(self) == (Driver { pending: NO_INTERRUPT, ..*old(self) }),
            opcode == if old(self).pending == NO_INTERRUPT {
                None
            } else {
                Some(old(self).pending)
            },
    {
        let pending = self.pending;
        self.pending = NO_INTERRUPT;
        if pending == NO_INTERRUPT {
            None
        } else {
            Some(pending)
        }
    }

    pub fn wait(&self) -> (wait: Wait)
        ensures
            wait == self.waits(),
    {
        if self.debugging {
            Wait::Block
        } else {
            Wait::Poll
        }
    }
}

/// The machine after one round of the driver: the interrupt that waits, if
/// one does, is offered, and one instruction runs.
pub open spec fn after_round<M: Memory, I: IODevices>(
    machine: Machine<M, I>,
    pending: u8,
) -> Machine<M, I> {
    if pending == NO_INTERRUPT {
        machine.stepped()
    } else {
        machine.interrupted(pending).stepped()
    }
}

/// Does what the driver does between two looks at the channel, and says how
/// it looks at the channel next.
pub fn round<M: Memory, I: IODevices>(driver: &mut Driver, interpreter: &mut Interpreter<M, I>) -> (wait:
    Wait)
    requires
        old(interpreter).clock_count + 2 * MAX_CLOCK <= u64::MAX,
    ensures
        final(interpreter)@ == after_round(old(interpreter)@, old(driver).pending),
        final(interpreter).settings() == old(interpreter).settings(),
        *final(driver) == (Driver { pending: NO_INTERRUPT, ..*old(driver) }),
        wait == old(driver).waits(),
{
    proof {
        old(interpreter)@.lemma_interrupted_clock(old(driver).pending);
    }
    match driver.take_interrupt() {
        Some(opcode) => {
            interpreter.interrupt(opcode);
        },
        None => {},
    }
    let _ = interpreter.step();
    driver.wait()
}

} // verus!

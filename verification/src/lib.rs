//! An Intel 8080 processor core with its memory and port buses, the arcade
//! board it drives, and a tracing disassembler.

pub mod alu;
pub mod bits;
pub mod debugger;
pub mod dissasembler;
pub mod driver;
pub mod intel8080;
pub mod interpreter;
pub mod space_invaders;
pub mod test_machine;
pub mod text;

pub use intel8080::{I8080State, IODevices, Memory};

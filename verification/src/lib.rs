//! A verified interpreter for Intcode, a tiny machine language whose programs
//! are flat sequences of signed 64-bit integers.
//!
//! The crate models the machine mathematically (memory as a `Seq<i64>`, one
//! small-step transition function) and proves that the executable interpreter
//! follows that model exactly, including its growable address space, its three
//! operand addressing modes, and its cooperative suspend/resume protocol.

pub mod decode;
pub mod drivers;
pub mod errors;
pub mod machine;
pub mod memory;

pub use decode::Opcode;
pub use decode::ParameterMode;
pub use drivers::try_phase_part1;
pub use drivers::try_phase_part2;
pub use errors::Failure;
pub use machine::IntcodeComputer;
pub use machine::State;
pub use machine::TraceEntry;
pub use memory::Memory;

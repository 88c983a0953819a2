//! The failure taxonomy of the machine.
//!
//! Every failure is terminal for the instance that raised it: the execution
//! context is no longer trustworthy and the instance must not be resumed.

use vstd::prelude::*;

verus! {

/// A hard, unrecoverable error of one machine instance.
#[derive(Copy, Clone, Debug, PartialEq, Eq, Structural)]
pub enum Failure {
    /// The low two decimal digits of an instruction word are not a defined
    /// opcode (or the word is negative).
    InvalidOpcode,
    /// A decoded parameter-mode digit is outside {0, 1, 2}.
    InvalidParameterMode,
    /// Immediate mode was used for a parameter that must name a write target.
    IllegalWriteTarget,
    /// A memory access computed a negative address.
    NegativeAddress,
    /// `provide_input` or `get_output` was called while the machine was not in
    /// the matching blocked state, or `run` was called after termination.
    OutOfPhaseCall,
    /// A blocking-mode input instruction executed with no input value left.
    UninitializedIo,
    /// An arithmetic instruction, an address computation, or a relative-base
    /// adjustment left the signed 64-bit range.  The machine uses checked
    /// arithmetic throughout: overflow is reported, never wrapped.
    Overflow,
}

} // verus!

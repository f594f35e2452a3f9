//! The faults that abort a run of the interpreter.

use vstd::prelude::*;

verus! {

/// A fault during execution. Every fault is fatal: the run aborts at the
/// point of detection, with no retry and no partial continuation.
#[derive(Clone, Copy, Debug, PartialEq, Eq, Structural)]
pub enum VmError {
    /// A stack operation asked for more words than were present.
    StackUnderflow,
    /// A memory offset word cannot be represented as a valid byte index.
    InvalidOffset,
    /// A jump target whose byte is not the jump-destination marker.
    InvalidJumpDestination,
    /// A byte with no defined instruction, carrying that byte.
    UnknownOpcode(u8),
}

} // verus!

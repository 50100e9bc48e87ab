//! The ways in which loading or running a program can fail.

use vstd::prelude::*;

verus! {

/// A fatal condition. None of them can be recovered from: the host stops.
#[derive(Clone, Copy, Debug, PartialEq, Eq, Structural)]
pub enum Error {
    /// The program text holds a `[` without its `]`, or a `]` without its `[`.
    MalformedProgram,
    /// The cursor was asked to move in front of the first cell.
    TapeUnderflow,
}

} // verus!

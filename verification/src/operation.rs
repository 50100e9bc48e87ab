//! The eight instructions of the language and the symbols that denote them.

use vstd::prelude::*;

verus! {

/// One instruction of a program.
#[derive(Clone, Copy, Debug, PartialEq, Eq, Structural)]
pub enum Operation {
    /// `>`: move the cursor one cell forward.
    IncrementDataPointer,
    /// `<`: move the cursor one cell backward.
    DecrementDataPointer,
    /// `+`: add one to the current cell, wrapping at 256.
    IncrementCellValue,
    /// `-`: subtract one from the current cell, wrapping at 0.
    DecrementCellValue,
    /// `.`: emit the current cell.
    OutputCell,
    /// `,`: store an input byte in the current cell.
    InputCell,
    /// `[`: skip past the matching `]` when the current cell is zero.
    OpenLoop,
    /// `]`: go back to the matching `[` when the current cell is not zero.
    CloseLoop,
}

impl Operation {
    /// The instruction that a character of program text denotes, if any.
    pub open spec fn of_char(c: char) -> Option<Operation> {
        if c == '>' {
            Some(Operation::IncrementDataPointer)
        } else if c == '<' {
            Some(Operation::DecrementDataPointer)
        } else if c == '+' {
            Some(Operation::IncrementCellValue)
        } else if c == '-' {
            Some(Operation::DecrementCellValue)
        } else if c == '.' {
            Some(Operation::OutputCell)
        } else if c == ',' {
            Some(Operation::InputCell)
        } else if c == '[' {
            Some(Operation::OpenLoop)
        } else if c == ']' {
            Some(Operation::CloseLoop)
        } else {
            None
        }
    }

    /// Decodes one character of program text. Every character other than the
    /// eight symbols is commentary and decodes to `None`.
    pub fn from_char(c: char) -> (op: Option<Operation>)
        ensures
            op == Self::of_char(c),
    {
        match c {
            '>' => Some(Operation::IncrementDataPointer),
            '<' => Some(Operation::DecrementDataPointer),
            '+' => Some(Operation::IncrementCellValue),
            '-' => Some(Operation::DecrementCellValue),
            '.' => Some(Operation::OutputCell),
            ',' => Some(Operation::InputCell),
            '[' => Some(Operation::OpenLoop),
            ']' => Some(Operation::CloseLoop),
            _ => None,
        }
    }
}

} // verus!

//! The tape: a growable row of byte cells with a cursor.

use vstd::prelude::*;
use crate::error::Error;

verus! {

/// The byte after `v`, with 255 followed by 0.
pub open spec fn succ(v: u8) -> u8 {
    if v == 255 {
        0
    } else {
        (v + 1) as u8
    }
}

/// The byte before `v`, with 0 preceded by 255.
pub open spec fn pred(v: u8) -> u8 {
    if v == 0 {
        255
    } else {
        (v - 1) as u8
    }
}

/// The character that a cell is written out as: the one whose code point is
/// the cell's value. Every byte has one, so output cannot fail.
pub open spec fn latin1(v: u8) -> char {
    v as char
}

/// A tape as a mathematical value: the cells from the first on, and the
/// position of the cursor among them.
pub struct TapeView {
    pub cells: Seq<u8>,
    pub cursor: int,
}

impl TapeView {
    /// The cursor stands on a cell.
    pub open spec fn wf(self) -> bool {
        0 <= self.cursor < self.cells.len()
    }

    /// The tape that every run starts from: one cell holding zero.
    pub open spec fn blank() -> TapeView {
        TapeView { cells: seq![0u8], cursor: 0 }
    }

    /// The value of the cell under the cursor.
    pub open spec fn current(self) -> u8 {
        self.cells[self.cursor]
    }

    /// The tape with `v` in the cell under the cursor.
    pub open spec fn store(self, v: u8) -> TapeView {
        TapeView { cells: self.cells.update(self.cursor, v), cursor: self.cursor }
    }

    /// The tape with the cursor one cell further on; where it stood on the
    /// last cell, one zero cell is added for it to stand on.
    pub open spec fn advance(self) -> TapeView {
        TapeView {
            cells: if self.cursor + 1 < self.cells.len() {
                self.cells
            } else {
                self.cells.push(0u8)
            },
            cursor: self.cursor + 1,
        }
    }

    /// The tape with the cursor one cell back.
    pub open spec fn retreat(self) -> TapeView {
        TapeView { cells: self.cells, cursor: self.cursor - 1 }
    }
}

/// The tape, with a copy of the current cell kept beside it.
#[derive(Debug)]
pub struct Cells {
    tape: Vec<u8>,
    index: usize,
    value: u8,
}

impl View for Cells {
    type V = TapeView;

    closed spec fn view(&self) -> TapeView {
        TapeView { cells: self.tape@, cursor: self.index as int }
    }
}

impl Cells {
    /// The copy of the current cell that is kept beside the tape.
    pub closed spec fn cached(&self) -> u8 {
        self.value
    }

    /// The cursor stands on a cell and the copy agrees with that cell.
    pub open spec fn wf(&self) -> bool {
        &&& self@.wf()
        &&& self.cached() == self@.current()
    }

    /// A tape of one zero cell with the cursor on it.
    pub fn new() -> (cells: Cells)
        ensures
            cells.wf(),
            cells@ == TapeView::blank(),
    {
        let cells = Cells { tape: vec![0], index: 0, value: 0u8 };
        assert(cells@.cells =~= seq![0u8]);
        cells
    }

    /// Moves the cursor forward, growing the tape by one zero cell when the
    /// cursor leaves its end. No cell changes and none is removed.
    pub fn increment_index(&mut self)
        requires
            old(self).wf(),
        ensures
            final(self).wf(),
            final(self)@ == old(self)@.advance(),
            final(self)@.cells.len() >= old(self)@.cells.len(),
    {
        assert(self.index < self.tape.len());
        self.index += 1;
        if self.index >= self.tape.len() {
            self.tape.push(0);
        }
        self.update_value();
    }

    /// Moves the cursor back, unless it stands on the first cell: then the
    /// move is refused and nothing changes.
    pub fn decrement_index(&mut self) -> (result: Result<(), Error>)
        requires
            old(self).wf(),
        ensures
            final(self).wf(),
            old(self)@.cursor == 0 ==> {
                &&& result == Err::<(), Error>(Error::TapeUnderflow)
                &&& final(self)@ == old(self)@
            },
            old(self)@.cursor > 0 ==> {
                &&& result is Ok
                &&& final(self)@ == old(self)@.retreat()
            },
            final(self)@.cells == old(self)@.cells,
    {
        if self.index == 0 {
            return Err(Error::TapeUnderflow);
        }
        self.index -= 1;
        self.update_value();
        Ok(())
    }

    /// Adds one to the current cell; 255 becomes 0.
    pub fn increment_value(&mut self)
        requires
            old(self).wf(),
        ensures
            final(self).wf(),
            final(self)@ == old(self)@.store(succ(old(self)@.current())),
            final(self)@.cells.len() >= old(self)@.cells.len(),
    {
        if self.value == 255 {
            self.tape[self.index] = 0;
        } else {
            self.tape[self.index] += 1;
        }
        self.update_value();
    }

    /// Subtracts one from the current cell; 0 becomes 255.
    pub fn decrement_value(&mut self)
        requires
            old(self).wf(),
        ensures
            final(self).wf(),
            final(self)@ == old(self)@.store(pred(old(self)@.current())),
            final(self)@.cells.len() >= old(self)@.cells.len(),
    {
        if self.value == 0 {
            self.tape[self.index] = 255;
        } else {
            self.tape[self.index] -= 1;
        }
        self.update_value();
    }

    /// The character to write for the current cell.
    pub fn output(&self) -> (c: char)
        requires
            self.wf(),
        ensures
            c == latin1(self@.current()),
    {
        self.value as char
    }

    /// Takes a byte from the input. No input is connected, and the byte is
    /// always zero: the current cell becomes 0.
    pub fn read(&mut self)
        requires
            old(self).wf(),
        ensures
            final(self).wf(),
            final(self)@ == old(self)@.store(0),
            final(self)@.cells.len() >= old(self)@.cells.len(),
    {
        self.tape[self.index] = 0;
        self.update_value();
    }

    /// Whether the current cell holds zero, answered from the copy.
    pub fn is_empty(&self) -> (empty: bool)
        requires
            self.wf(),
        ensures
            empty == (self@.current() == 0),
    {
        self.value == 0
    }

    /// The position of the cursor.
    pub fn index(&self) -> (index: usize)
        ensures
            index == self@.cursor,
    {
        self.index
    }

    /// The value of the current cell, answered from the copy.
    pub fn value(&self) -> (value: u8)
        requires
            self.wf(),
        ensures
            value == self@.current(),
    {
        self.value
    }

    /// The cells, from the first on.
    pub fn tape(&self) -> (tape: &Vec<u8>)
        ensures
            tape@ == self@.cells,
    {
        &self.tape
    }

    /// Brings the copy of the current cell up to date. Every operation that
    /// moves the cursor or changes the current cell ends with this.
    pub fn update_value(&mut self)
        requires
            old(self)@.wf(),
        ensures
            final(self).wf(),
            final(self)@ == old(self)@,
    {
        assert(self.index < self.tape.len());
        self.value = self.tape[self.index];
    }
}

} // verus!

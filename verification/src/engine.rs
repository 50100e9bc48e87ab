//! The execution engine: a program counter walking a program over a tape.

use vstd::prelude::*;
use crate::brackets::balanced;
use crate::cells::Cells;
use crate::error::Error;
use crate::operation::Operation;
use crate::program::Program;
use crate::semantics::{lemma_tape_never_shrinks, run, Configuration, Transition};

verus! {

/// What one call of [`Engine::step`] did.
#[derive(Clone, Copy, Debug, PartialEq, Eq, Structural)]
pub enum Step {
    /// The program has ended; nothing was executed.
    Halted,
    /// One instruction was executed and wrote nothing.
    Advanced,
    /// One output instruction was executed and wrote this character.
    Output(char),
}

/// A program, the tape it works on, and the program counter.
#[derive(Debug)]
pub struct Engine {
    program: Program,
    cells: Cells,
    counter: usize,
}

impl View for Engine {
    type V = Configuration;

    closed spec fn view(&self) -> Configuration {
        Configuration { tape: self.cells@, counter: self.counter as int }
    }
}

impl Engine {
    /// The instructions of the program that this engine runs.
    pub closed spec fn operations(&self) -> Seq<Operation> {
        self.program@
    }

    /// The program is well formed, the tape is, and the counter is in range.
    pub closed spec fn wf(&self) -> bool {
        &&& self.program.wf()
        &&& self.cells.wf()
        &&& self.counter <= self.program@.len()
    }

    /// A well-formed engine runs a balanced program and is in a well-formed
    /// state.
    pub proof fn lemma_wf(&self)
        requires
            self.wf(),
        ensures
            balanced(self.operations()),
            self@.wf(self.operations()),
    {
    }

    /// An engine about to execute the first instruction of `program` on a
    /// tape of one zero cell.
    pub fn new(program: Program) -> (engine: Engine)
        requires
            program.wf(),
        ensures
            engine.wf(),
            engine.operations() == program@,
            engine@ == Configuration::initial(),
    {
        Engine { program, cells: Cells::new(), counter: 0 }
    }

    /// Executes the instruction under the counter, if there is one. After a
    /// fault the engine is as it was before the call.
    pub fn step(&mut self) -> (result: Result<Step, Error>)
        requires
            old(self).wf(),
        ensures
            final(self).wf(),
            final(self).operations() == old(self).operations(),
            final(self)@.tape.cells.len() >= old(self)@.tape.cells.len(),
            match old(self)@.step(old(self).operations()) {
                Transition::Halt => {
                    &&& result == Ok::<Step, Error>(Step::Halted)
                    &&& final(self)@ == old(self)@
                },
                Transition::Fault(e) => {
                    &&& result == Err::<Step, Error>(e)
                    &&& final(self)@ == old(self)@
                },
                Transition::Move { next, output: Some(c) } => {
                    &&& result == Ok::<Step, Error>(Step::Output(c))
                    &&& final(self)@ == next
                },
                Transition::Move { next, output: None } => {
                    &&& result == Ok::<Step, Error>(Step::Advanced)
                    &&& final(self)@ == next
                },
            },
    {
        if self.counter >= self.program.len() {
            return Ok(Step::Halted);
        }
        let mut step = Step::Advanced;
        match self.program.operation(self.counter) {
            Operation::IncrementDataPointer => self.cells.increment_index(),
            Operation::DecrementDataPointer => {
                match self.cells.decrement_index() {
                    Ok(()) => {},
                    Err(e) => {
                        return Err(e);
                    },
                }
            },
            Operation::IncrementCellValue => self.cells.increment_value(),
            Operation::DecrementCellValue => self.cells.decrement_value(),
            Operation::OutputCell => {
                step = Step::Output(self.cells.output());
            },
            Operation::InputCell => self.cells.read(),
            Operation::OpenLoop => {
                if self.cells.is_empty() {
                    self.counter = self.program.jump(self.counter);
                }
            },
            Operation::CloseLoop => {
                if !self.cells.is_empty() {
                    self.counter = self.program.jump(self.counter);
                }
            },
        }
        self.counter += 1;
        Ok(step)
    }

    /// The tape.
    pub fn cells(&self) -> (cells: &Cells)
        ensures
            cells@ == self@.tape,
            self.wf() ==> cells.wf(),
    {
        &self.cells
    }

    /// The position of the instruction that is executed next.
    pub fn counter(&self) -> (counter: usize)
        ensures
            counter == self@.counter,
    {
        self.counter
    }

    /// Whether the program has ended.
    pub fn is_halted(&self) -> (halted: bool)
        requires
            self.wf(),
        ensures
            halted == (self@.counter >= self.operations().len()),
    {
        self.counter >= self.program.len()
    }

    /// Executes instructions until the program ends, an instruction faults,
    /// or `limit` of them have been executed, and appends what they write to
    /// `output`. Returns whether the program has ended.
    pub fn run(&mut self, limit: u64, output: &mut Vec<char>) -> (result: Result<bool, Error>)
        requires
            old(self).wf(),
        ensures
            final(self).wf(),
            final(self).operations() == old(self).operations(),
            final(self)@.tape.cells.len() >= old(self)@.tape.cells.len(),
            ({
                let whole = run(old(self).operations(), old(self)@, limit as nat);
                &&& final(self)@ == whole.last
                &&& final(output)@ == old(output)@ + whole.output
                &&& result == whole.end
            }),
    {
        let ghost ops = self.operations();
        let ghost whole = run(ops, self@, limit as nat);
        proof {
            self.lemma_wf();
            lemma_tape_never_shrinks(ops, self@, limit as nat);
        }
        let mut remaining: u64 = limit;
        while remaining > 0
            invariant
                ops == old(self).operations(),
                whole == run(ops, old(self)@, limit as nat),
                whole.last.tape.cells.len() >= old(self)@.tape.cells.len(),
                self.wf(),
                self.operations() == ops,
                whole.last == run(ops, self@, remaining as nat).last,
                whole.end == run(ops, self@, remaining as nat).end,
                old(output)@ + whole.output == output@ + run(ops, self@, remaining as nat).output,
            decreases remaining,
        {
            let ghost before = output@;
            let ghost rest = run(ops, self@, remaining as nat);
            match self.step() {
                Err(e) => {
                    return Err(e);
                },
                Ok(Step::Halted) => {
                    return Ok(true);
                },
                Ok(Step::Advanced) => {},
                Ok(Step::Output(c)) => {
                    output.push(c);
                },
            }
            remaining -= 1;
            proof {
                let next = run(ops, self@, remaining as nat);
                assert(before + rest.output == output@ + next.output);
            }
        }
        Ok(self.is_halted())
    }
}

} // verus!

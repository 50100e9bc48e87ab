//! What running a program means: single steps and bounded runs of the
//! machine, as mathematical functions of the instruction sequence.

use vstd::prelude::*;
use crate::brackets::{
    balanced, has_partner, lemma_balanced_iff_every_bracket_matched, lemma_linked_is_partner,
    lemma_loops_nest, matched, partner,
};
use crate::cells::{latin1, pred, succ, TapeView};
use crate::error::Error;
use crate::operation::Operation;

verus! {

/// The state of a run between two instructions.
pub struct Configuration {
    pub tape: TapeView,
    pub counter: int,
}

/// What executing one instruction leads to.
pub enum Transition {
    /// The counter has run off the end of the program: nothing is executed.
    Halt,
    /// The instruction cannot be executed.
    Fault(Error),
    /// The instruction was executed.
    Move { next: Configuration, output: Option<char> },
}

impl Configuration {
    /// The state that every run starts in.
    pub open spec fn initial() -> Configuration {
        Configuration { tape: TapeView::blank(), counter: 0 }
    }

    /// The cursor stands on a cell, and the counter on an instruction of
    /// `ops` or just behind the last.
    pub open spec fn wf(self, ops: Seq<Operation>) -> bool {
        &&& self.tape.wf()
        &&& 0 <= self.counter <= ops.len()
    }

    /// This state with tape `tape`, the counter moved behind `position`.
    pub open spec fn proceed(self, tape: TapeView, position: int) -> Transition {
        Transition::Move { next: Configuration { tape, counter: position + 1 }, output: None }
    }

    /// One step of the machine. The counter always moves one position on
    /// from where the instruction left it: a jump lands on a bracket, and
    /// execution goes on behind that bracket.
    pub open spec fn step(self, ops: Seq<Operation>) -> Transition {
        let here = self.counter;
        let tape = self.tape;
        if here >= ops.len() {
            Transition::Halt
        } else {
            match ops[here] {
                Operation::IncrementDataPointer => self.proceed(tape.advance(), here),
                Operation::DecrementDataPointer => if tape.cursor == 0 {
                    Transition::Fault(Error::TapeUnderflow)
                } else {
                    self.proceed(tape.retreat(), here)
                },
                Operation::IncrementCellValue => self.proceed(
                    tape.store(succ(tape.current())),
                    here,
                ),
                Operation::DecrementCellValue => self.proceed(
                    tape.store(pred(tape.current())),
                    here,
                ),
                Operation::OutputCell => Transition::Move {
                    next: Configuration { tape, counter: here + 1 },
                    output: Some(latin1(tape.current())),
                },
                Operation::InputCell => self.proceed(tape.store(0), here),
                Operation::OpenLoop => if tape.current() == 0 {
                    self.proceed(tape, partner(ops, here))
                } else {
                    self.proceed(tape, here)
                },
                Operation::CloseLoop => if tape.current() != 0 {
                    self.proceed(tape, partner(ops, here))
                } else {
                    self.proceed(tape, here)
                },
            }
        }
    }
}

/// What a bounded run comes to.
pub struct Run {
    /// The state in which the run stopped.
    pub last: Configuration,
    /// The characters written, in order.
    pub output: Seq<char>,
    /// `Ok(true)` where the program ended, `Ok(false)` where the run was cut
    /// short, and the fault where an instruction could not be executed.
    pub end: Result<bool, Error>,
}

/// The run of at most `limit` instructions from state `from`. Finding that
/// the program has ended takes no step.
pub open spec fn run(ops: Seq<Operation>, from: Configuration, limit: nat) -> Run
    decreases limit,
{
    match from.step(ops) {
        Transition::Halt => Run { last: from, output: Seq::empty(), end: Ok(true) },
        Transition::Fault(e) => Run {
            last: from,
            output: Seq::empty(),
            end: if limit == 0 {
                Ok(false)
            } else {
                Err(e)
            },
        },
        Transition::Move { next, output } => if limit == 0 {
            Run { last: from, output: Seq::empty(), end: Ok(false) }
        } else {
            let rest = run(ops, next, (limit - 1) as nat);
            Run {
                last: rest.last,
                output: match output {
                    Some(c) => seq![c] + rest.output,
                    None => rest.output,
                },
                end: rest.end,
            }
        },
    }
}

/// At a `[`, a zero cell sends control behind the `]` that belongs to it,
/// and any other value into the loop's body. The tape is left as it is.
pub proof fn lemma_loop_entry(ops: Seq<Operation>, at: Configuration, close: int)
    requires
        matched(ops, at.counter, close),
    ensures
        at.step(ops) == (Transition::Move {
            next: Configuration {
                tape: at.tape,
                counter: if at.tape.current() == 0 {
                    close + 1
                } else {
                    at.counter + 1
                },
            },
            output: None,
        }),
{
    lemma_linked_is_partner(ops, at.counter, close);
}

/// At a `]`, a value other than zero sends control back to the start of the
/// body, behind the `[` that belongs to it, and zero lets it leave the loop.
/// The tape is left as it is.
pub proof fn lemma_loop_exit(ops: Seq<Operation>, at: Configuration, open: int)
    requires
        matched(ops, open, at.counter),
    ensures
        at.step(ops) == (Transition::Move {
            next: Configuration {
                tape: at.tape,
                counter: if at.tape.current() != 0 {
                    open + 1
                } else {
                    at.counter + 1
                },
            },
            output: None,
        }),
{
    lemma_linked_is_partner(ops, at.counter, open);
}

/// A step of a balanced program leads from a well-formed state to a
/// well-formed state, and takes no cell from the tape.
pub proof fn lemma_step_keeps_wf(ops: Seq<Operation>, at: Configuration)
    requires
        balanced(ops),
        at.wf(ops),
    ensures
        at.step(ops) matches Transition::Move { next, .. } ==> {
            &&& next.wf(ops)
            &&& next.tape.cells.len() >= at.tape.cells.len()
        },
{
    lemma_balanced_iff_every_bracket_matched(ops);
    if at.counter < ops.len() {
        assert(has_partner(ops, at.counter));
    }
}

/// The tape never shrinks: however long a balanced program runs, the tape
/// it stops with has at least the cells it started with, and the state it
/// stops in is well formed.
pub proof fn lemma_tape_never_shrinks(ops: Seq<Operation>, from: Configuration, limit: nat)
    requires
        balanced(ops),
        from.wf(ops),
    ensures
        run(ops, from, limit).last.wf(ops),
        run(ops, from, limit).last.tape.cells.len() >= from.tape.cells.len(),
    decreases limit,
{
    lemma_step_keeps_wf(ops, from);
    if limit > 0 {
        if let Transition::Move { next, .. } = from.step(ops) {
            lemma_tape_never_shrinks(ops, next, (limit - 1) as nat);
        }
    }
}

/// A loop is left only over a zero cell. A step that starts on an
/// instruction of the loop, brackets included, leads into the loop's body or
/// onto its `]`; or else it starts on one of the two brackets, finds zero in
/// the current cell, leaves the tape as it is, and leads behind the `]`.
pub proof fn lemma_loop_left_on_zero(ops: Seq<Operation>, open: int, close: int, at: Configuration)
    requires
        balanced(ops),
        matched(ops, open, close),
        open <= at.counter <= close,
    ensures
        at.step(ops) matches Transition::Move { next, .. } ==> {
            ||| open < next.counter <= close
            ||| {
                &&& at.counter == open || at.counter == close
                &&& at.tape.current() == 0
                &&& next.tape == at.tape
                &&& next.counter == close + 1
            }
        },
{
    let here = at.counter;
    lemma_balanced_iff_every_bracket_matched(ops);
    assert(has_partner(ops, here));
    if here == open {
        lemma_linked_is_partner(ops, open, close);
    } else if here == close {
        lemma_linked_is_partner(ops, close, open);
    } else {
        match ops[here] {
            Operation::OpenLoop => {
                lemma_loops_nest(ops, open, close, here, partner(ops, here));
            },
            Operation::CloseLoop => {
                lemma_loops_nest(ops, open, close, partner(ops, here), here);
            },
            _ => {},
        }
    }
}

/// A loop that never finds zero at its `]` is never left: a run that is
/// inside it does not end, and where it stops, cut short or at a fault, it
/// is still inside.
pub proof fn lemma_loop_never_left(
    ops: Seq<Operation>,
    open: int,
    close: int,
    from: Configuration,
    limit: nat,
)
    requires
        balanced(ops),
        matched(ops, open, close),
        open < from.counter <= close,
        forall|n: nat|
            {
                let reached = #[trigger] run(ops, from, n);
                reached.end == Ok::<bool, Error>(false) && reached.last.counter == close
                    ==> reached.last.tape.current() != 0
            },
    ensures
        run(ops, from, limit).end != Ok::<bool, Error>(true),
        open < run(ops, from, limit).last.counter <= close,
    decreases limit,
{
    if limit > 0 {
        if let Transition::Move { next, .. } = from.step(ops) {
            assert(open < next.counter <= close) by {
                lemma_loop_left_on_zero(ops, open, close, from);
                assert(run(ops, from, 0).last == from);
            }
            assert forall|n: nat|
                {
                    let reached = #[trigger] run(ops, next, n);
                    reached.end == Ok::<bool, Error>(false) && reached.last.counter == close
                        ==> reached.last.tape.current() != 0
                } by {
                let longer = run(ops, from, n + 1);
                assert(longer.last == run(ops, next, n).last);
                assert(longer.end == run(ops, next, n).end);
            }
            lemma_loop_never_left(ops, open, close, next, (limit - 1) as nat);
        }
    }
}

} // verus!

//! Programs: instruction sequences with resolved loop jumps, and the parser
//! that builds them from text.

use vstd::prelude::*;
use crate::brackets::{
    balanced, depth, every_bracket_matched, is_prefix, lemma_balanced_iff_every_bracket_matched,
    lemma_close_unique, lemma_depth_prefix, lemma_linked_is_partner, lemma_matched_prefix,
    lemma_open_unique, linked, matched, never_negative, partner,
};
use crate::error::Error;
use crate::operation::Operation;

verus! {

/// The instructions that a program text denotes: its characters in order,
/// each decoded, with everything that is not an instruction left out.
pub open spec fn operations_of(text: Seq<char>) -> Seq<Operation> {
    text.filter_map(|c: char| Operation::of_char(c))
}

/// The instructions of a longer text begin with those of each of its initial
/// segments.
pub proof fn lemma_operations_of_take(text: Seq<char>, k: int, m: int)
    requires
        0 <= k <= m <= text.len(),
    ensures
        is_prefix(operations_of(text.take(k)), operations_of(text.take(m))),
    decreases m - k,
{
    if k < m {
        lemma_operations_of_take(text, k, m - 1);
        text.lemma_filter_map_take_succ(|c: char| Operation::of_char(c), m - 1);
    }
}

/// A `]` met at depth zero leaves the whole text unbalanced, whatever
/// follows it.
proof fn lemma_close_without_open(text: Seq<char>, at: int)
    requires
        0 <= at < text.len(),
        Operation::of_char(text[at]) == Some(Operation::CloseLoop),
        depth(operations_of(text.take(at)), operations_of(text.take(at)).len() as int) == 0,
    ensures
        !balanced(operations_of(text)),
{
    let before = operations_of(text.take(at));
    let read = operations_of(text.take(at + 1));
    let whole = operations_of(text);
    text.lemma_filter_map_take_succ(|c: char| Operation::of_char(c), at);
    assert(read == before.push(Operation::CloseLoop));
    lemma_depth_prefix(before, read, before.len() as int);
    assert(depth(read, read.len() as int) == -1);
    lemma_operations_of_take(text, at + 1, text.len() as int);
    assert(text.take(text.len() as int) == text);
    lemma_depth_prefix(read, whole, read.len() as int);
}

/// One more instruction changes neither the depth at the positions up to
/// it, nor which brackets in front of it belong together.
proof fn lemma_push_keeps(ops: Seq<Operation>, op: Operation)
    ensures
        forall|k: int|
            #![trigger depth(ops.push(op), k)]
            #![trigger depth(ops, k)]
            k <= ops.len() ==> depth(ops.push(op), k) == depth(ops, k),
        forall|i: int, j: int| #[trigger] matched(ops, i, j) ==> matched(ops.push(op), i, j),
{
    let longer = ops.push(op);
    assert(is_prefix(ops, longer));
    assert forall|k: int| k <= ops.len() implies depth(longer, k) == depth(ops, k) by {
        lemma_depth_prefix(ops, longer, k);
    }
    assert forall|i: int, j: int| #[trigger] matched(ops, i, j) implies matched(longer, i, j) by {
        lemma_matched_prefix(ops, longer, i, j);
    }
}

/// The `[` at `open` is still open at the end of `ops`: the depth has not
/// come back to what it was in front of it.
spec fn still_open(ops: Seq<Operation>, open: int) -> bool {
    &&& ops[open] == Operation::OpenLoop
    &&& forall|k: int| open < k <= ops.len() ==> depth(ops, k) > depth(ops, open)
}

/// `pending` holds the positions of the `[` that are still open at the end
/// of `ops`, the outermost first.
spec fn lists_open_loops(ops: Seq<Operation>, pending: Seq<usize>) -> bool {
    &&& pending.len() == depth(ops, ops.len() as int)
    &&& forall|s: int|
        0 <= s < pending.len() ==> {
            &&& (#[trigger] pending[s]) < ops.len()
            &&& ops[pending[s] as int] == Operation::OpenLoop
            &&& depth(ops, pending[s] as int) == s
        }
    &&& forall|s: int, k: int|
        #![trigger pending[s], depth(ops, k)]
        0 <= s < pending.len() && pending[s] < k <= ops.len() ==> depth(ops, k) > s
}

/// `jumps` holds the right entry for every instruction of `ops` but the `[`
/// that are still open.
spec fn links_closed_loops(ops: Seq<Operation>, jumps: Seq<usize>) -> bool {
    &&& jumps.len() == ops.len()
    &&& forall|i: int|
        0 <= i < ops.len() ==> linked(ops, i, #[trigger] jumps[i] as int) || still_open(ops, i)
}

/// An instruction sequence together with its jump table.
#[derive(Debug)]
pub struct Program {
    operations: Vec<Operation>,
    jumps: Vec<usize>,
}

impl View for Program {
    type V = Seq<Operation>;

    /// A program is its sequence of instructions.
    closed spec fn view(&self) -> Seq<Operation> {
        self.operations@
    }
}

impl Program {
    /// The jump table: one entry for each instruction.
    pub closed spec fn jumps(&self) -> Seq<usize> {
        self.jumps@
    }

    /// The brackets are balanced, and the jump table holds for every bracket
    /// the position of its partner.
    pub open spec fn wf(&self) -> bool {
        &&& balanced(self@)
        &&& self.jumps().len() == self@.len()
        &&& forall|i: int|
            0 <= i < self@.len() ==> linked(self@, i, #[trigger] self.jumps()[i] as int)
    }

    /// Reads a program text in one pass. Characters other than the eight
    /// symbols are skipped and take no position. The text is accepted exactly
    /// when its brackets are balanced, which is when each of them has its
    /// partner; the jump table of the program then holds these partners.
    pub fn parse(text: &str) -> (result: Result<Program, Error>)
        ensures
            result is Ok <==> balanced(operations_of(text@)),
            result is Ok <==> every_bracket_matched(operations_of(text@)),
            match result {
                Ok(program) => program@ == operations_of(text@) && program.wf(),
                Err(e) => e == Error::MalformedProgram,
            },
    {
        proof {
            lemma_balanced_iff_every_bracket_matched(operations_of(text@));
        }
        let mut operations: Vec<Operation> = Vec::new();
        let mut jumps: Vec<usize> = Vec::new();
        let mut pending: Vec<usize> = Vec::new();
        for c in it: text.chars()
            invariant
                it.seq() == text@,
                balanced(operations_of(text@)) <==> every_bracket_matched(operations_of(text@)),
                operations@ == operations_of(text@.take(it.index() as int)),
                never_negative(operations@),
                lists_open_loops(operations@, pending@),
                links_closed_loops(operations@, jumps@),
        {
            let ghost consumed = it.index() as int;
            proof {
                text@.lemma_filter_map_take_succ(|c: char| Operation::of_char(c), consumed);
            }
            let ghost before = operations@;
            match Operation::from_char(c) {
                None => {},
                Some(op) => {
                    let position: usize = operations.len();
                    match op {
                        Operation::OpenLoop => {
                            pending.push(position);
                            jumps.push(position);
                        },
                        Operation::CloseLoop => {
                            match pending.pop() {
                                None => {
                                    proof {
                                        lemma_close_without_open(text@, consumed);
                                    }
                                    return Err(Error::MalformedProgram);
                                },
                                Some(open) => {
                                    jumps.set(open, position);
                                    jumps.push(open);
                                },
                            }
                        },
                        _ => {
                            jumps.push(position);
                        },
                    }
                    operations.push(op);
                    proof {
                        lemma_push_keeps(before, op);
                    }
                },
            }
        }
        proof {
            assert(text@.take(text@.len() as int) == text@);
        }
        if pending.len() != 0 {
            return Err(Error::MalformedProgram);
        }
        Ok(Program { operations, jumps })
    }

    /// The number of instructions.
    pub fn len(&self) -> (n: usize)
        ensures
            n == self@.len(),
    {
        self.operations.len()
    }

    /// The instruction at position `i`.
    pub fn operation(&self, i: usize) -> (op: Operation)
        requires
            i < self@.len(),
        ensures
            op == self@[i as int],
    {
        self.operations[i]
    }

    /// The jump table's entry for position `i`: where `i` holds a bracket,
    /// the position of the bracket that belongs to it, and else `i`.
    pub fn jump(&self, i: usize) -> (target: usize)
        requires
            self.wf(),
            i < self@.len(),
        ensures
            target == self.jumps()[i as int],
            target == partner(self@, i as int),
            target < self@.len(),
    {
        proof {
            self.lemma_jumps_pair_up(i as int);
        }
        self.jumps[i]
    }

    /// The jump table holds at each position its one partner, and there the
    /// position itself: a `[` leads to its `]`, and that `]` back to it.
    pub proof fn lemma_jumps_pair_up(&self, i: int)
        requires
            self.wf(),
            0 <= i < self@.len(),
        ensures
            self.jumps()[i] == partner(self@, i),
            0 <= self.jumps()[i] < self@.len(),
            self.jumps()[self.jumps()[i] as int] == i,
    {
        let there = self.jumps()[i] as int;
        lemma_linked_is_partner(self@, i, there);
        match self@[i] {
            Operation::OpenLoop => {
                lemma_open_unique(self@, i, self.jumps()[there] as int, there);
            },
            Operation::CloseLoop => {
                lemma_close_unique(self@, there, i, self.jumps()[there] as int);
            },
            _ => {},
        }
    }
}

} // verus!

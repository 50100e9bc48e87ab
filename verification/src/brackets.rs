//! The bracket structure of an instruction sequence: nesting depth, balance,
//! and which `[` belongs to which `]`.

use vstd::prelude::*;
use crate::operation::Operation;

verus! {

/// What an instruction adds to the nesting depth.
pub open spec fn delta(op: Operation) -> int {
    match op {
        Operation::OpenLoop => 1,
        Operation::CloseLoop => -1,
        _ => 0,
    }
}

/// The nesting depth in front of position `k`: the number of `[` minus the
/// number of `]` among the first `k` instructions.
pub open spec fn depth(ops: Seq<Operation>, k: int) -> int
    decreases k,
{
    if k <= 0 {
        0
    } else {
        depth(ops, k - 1) + delta(ops[k - 1])
    }
}

/// No `]` comes without an earlier `[` that is still open.
pub open spec fn never_negative(ops: Seq<Operation>) -> bool {
    forall|k: int| 0 <= k <= ops.len() ==> depth(ops, k) >= 0
}

/// Brackets nest properly: the depth never drops below zero and ends at zero.
pub open spec fn balanced(ops: Seq<Operation>) -> bool {
    &&& never_negative(ops)
    &&& depth(ops, ops.len() as int) == 0
}

/// The `[` at `open` and the `]` at `close` belong together: the depth after
/// `close` is back at what it was in front of `open` for the first time.
pub open spec fn matched(ops: Seq<Operation>, open: int, close: int) -> bool {
    &&& 0 <= open < close < ops.len()
    &&& ops[open] == Operation::OpenLoop
    &&& ops[close] == Operation::CloseLoop
    &&& depth(ops, close + 1) == depth(ops, open)
    &&& forall|k: int| open < k <= close ==> depth(ops, k) > depth(ops, open)
}

/// The position that control is sent to from the bracket at `i`: that of the
/// bracket that belongs to it. Other instructions send control nowhere, and
/// stand for themselves.
pub open spec fn partner(ops: Seq<Operation>, i: int) -> int {
    match ops[i] {
        Operation::OpenLoop => choose|close: int| matched(ops, i, close),
        Operation::CloseLoop => choose|open: int| matched(ops, open, i),
        _ => i,
    }
}

/// `target` is where position `i` leads: for a bracket the position of the
/// bracket that belongs to it, for any other instruction `i` itself.
pub open spec fn linked(ops: Seq<Operation>, i: int, target: int) -> bool {
    match ops[i] {
        Operation::OpenLoop => matched(ops, i, target),
        Operation::CloseLoop => matched(ops, target, i),
        _ => target == i,
    }
}

/// The instruction at `i` is no bracket, or a bracket that has one that
/// belongs to it.
pub open spec fn has_partner(ops: Seq<Operation>, i: int) -> bool {
    match ops[i] {
        Operation::OpenLoop => exists|close: int| matched(ops, i, close),
        Operation::CloseLoop => exists|open: int| matched(ops, open, i),
        _ => true,
    }
}

/// Every `[` has a `]` that belongs to it, and every `]` a `[`.
pub open spec fn every_bracket_matched(ops: Seq<Operation>) -> bool {
    forall|i: int| 0 <= i < ops.len() ==> #[trigger] has_partner(ops, i)
}

/// `a` is an initial segment of `b`.
pub open spec fn is_prefix(a: Seq<Operation>, b: Seq<Operation>) -> bool {
    &&& a.len() <= b.len()
    &&& forall|i: int| 0 <= i < a.len() ==> a[i] == b[i]
}

/// The depth at a position depends only on the instructions in front of it.
pub proof fn lemma_depth_prefix(a: Seq<Operation>, b: Seq<Operation>, k: int)
    requires
        is_prefix(a, b),
        k <= a.len(),
    ensures
        depth(a, k) == depth(b, k),
    decreases k,
{
    if k > 0 {
        lemma_depth_prefix(a, b, k - 1);
    }
}

/// A pair that belongs together still does after more instructions follow.
pub proof fn lemma_matched_prefix(a: Seq<Operation>, b: Seq<Operation>, open: int, close: int)
    requires
        is_prefix(a, b),
        matched(a, open, close),
    ensures
        matched(b, open, close),
{
    lemma_depth_prefix(a, b, close + 1);
    lemma_depth_prefix(a, b, open);
    assert forall|k: int| open < k <= close implies depth(b, k) > depth(b, open) by {
        lemma_depth_prefix(a, b, k);
    }
}

/// A `[` has at most one `]` that belongs to it.
pub proof fn lemma_close_unique(ops: Seq<Operation>, open: int, close1: int, close2: int)
    requires
        matched(ops, open, close1),
        matched(ops, open, close2),
    ensures
        close1 == close2,
{
    if close1 < close2 {
        assert(depth(ops, close1 + 1) > depth(ops, open));
    } else if close2 < close1 {
        assert(depth(ops, close2 + 1) > depth(ops, open));
    }
}

/// A `]` has at most one `[` that belongs to it.
pub proof fn lemma_open_unique(ops: Seq<Operation>, open1: int, open2: int, close: int)
    requires
        matched(ops, open1, close),
        matched(ops, open2, close),
    ensures
        open1 == open2,
{
    if open1 < open2 {
        assert(depth(ops, open2) > depth(ops, open1));
    } else if open2 < open1 {
        assert(depth(ops, open1) > depth(ops, open2));
    }
}

/// Loops nest: a loop with one bracket inside another loop lies inside it
/// with both.
pub proof fn lemma_loops_nest(
    ops: Seq<Operation>,
    open: int,
    close: int,
    inner_open: int,
    inner_close: int,
)
    requires
        matched(ops, open, close),
        matched(ops, inner_open, inner_close),
        open < inner_open < close || open < inner_close < close,
    ensures
        open < inner_open,
        inner_close < close,
{
    if open < inner_open < close {
        assert(depth(ops, inner_open) > depth(ops, open));
        if inner_close > close {
            assert(depth(ops, close + 1) > depth(ops, inner_open));
        }
    } else {
        assert(depth(ops, inner_close + 1) > depth(ops, open));
        if inner_open < open {
            assert(depth(ops, open) > depth(ops, inner_open));
        }
    }
}

/// Only the partner of a position is linked to it.
pub proof fn lemma_linked_is_partner(ops: Seq<Operation>, i: int, target: int)
    requires
        0 <= i < ops.len(),
        linked(ops, i, target),
    ensures
        partner(ops, i) == target,
{
    match ops[i] {
        Operation::OpenLoop => {
            lemma_close_unique(ops, i, target, partner(ops, i));
        },
        Operation::CloseLoop => {
            lemma_open_unique(ops, target, partner(ops, i), i);
        },
        _ => {},
    }
}

/// Finds the `]` of the `[` at `open`, given that it does not lie in front of
/// `from`.
proof fn lemma_find_close(ops: Seq<Operation>, open: int, from: int) -> (close: int)
    requires
        0 <= open < from <= ops.len(),
        ops[open] == Operation::OpenLoop,
        depth(ops, ops.len() as int) <= depth(ops, open),
        forall|k: int| open < k <= from ==> depth(ops, k) > depth(ops, open),
    ensures
        matched(ops, open, close),
    decreases ops.len() - from,
{
    assert(depth(ops, from) > depth(ops, open));
    assert(depth(ops, from + 1) == depth(ops, from) + delta(ops[from]));
    if depth(ops, from + 1) == depth(ops, open) {
        from
    } else {
        assert forall|k: int| open < k <= from + 1 implies depth(ops, k) > depth(ops, open) by {
            if k <= from {
                assert(depth(ops, k) > depth(ops, open));
            }
        }
        lemma_find_close(ops, open, from + 1)
    }
}

/// Finds the `[` of the `]` at `close`, given that it does not lie behind
/// `from`.
proof fn lemma_find_open(ops: Seq<Operation>, from: int, close: int) -> (open: int)
    requires
        0 <= from < close < ops.len(),
        ops[close] == Operation::CloseLoop,
        depth(ops, close + 1) >= 0,
        forall|k: int| from < k <= close ==> #[trigger] depth(ops, k) > depth(ops, close + 1),
    ensures
        matched(ops, open, close),
    decreases from,
{
    assert(depth(ops, from + 1) > depth(ops, close + 1));
    assert(depth(ops, from + 1) == depth(ops, from) + delta(ops[from]));
    if depth(ops, from) == depth(ops, close + 1) {
        from
    } else {
        let back = depth(ops, close + 1);
        assert forall|k: int| from - 1 < k <= close implies #[trigger] depth(ops, k) > back by {
            if k > from {
                assert(depth(ops, k) > back);
            }
        }
        lemma_find_open(ops, from - 1, close)
    }
}

/// Where every bracket has its partner, the depth stays at or above zero up
/// to position `k`.
proof fn lemma_matched_never_negative(ops: Seq<Operation>, k: int)
    requires
        every_bracket_matched(ops),
        0 <= k <= ops.len(),
    ensures
        forall|t: int| 0 <= t <= k ==> depth(ops, t) >= 0,
    decreases k,
{
    if k > 0 {
        lemma_matched_never_negative(ops, k - 1);
        assert(has_partner(ops, k - 1));
        assert(depth(ops, k) == depth(ops, k - 1) + delta(ops[k - 1]));
        if ops[k - 1] == Operation::CloseLoop {
            assert(depth(ops, k) == depth(ops, partner(ops, k - 1)));
        }
    }
}

/// Where every bracket has its partner, the depth does not end above zero.
/// Behind `t` the depth is known not to lie below where it ends; a `[` in
/// front of which it does would have no partner.
proof fn lemma_matched_no_surplus(ops: Seq<Operation>, t: int)
    requires
        every_bracket_matched(ops),
        0 <= t <= ops.len(),
        forall|u: int|
            t < u <= ops.len() ==> #[trigger] depth(ops, u) >= depth(ops, ops.len() as int),
    ensures
        depth(ops, ops.len() as int) <= 0,
    decreases t,
{
    let last = depth(ops, ops.len() as int);
    if depth(ops, t) < last {
        assert(has_partner(ops, t));
        assert(depth(ops, partner(ops, t) + 1) >= last);
    } else if t > 0 {
        lemma_matched_no_surplus(ops, t - 1);
    }
}

/// Brackets are balanced exactly when each of them has its partner.
pub proof fn lemma_balanced_iff_every_bracket_matched(ops: Seq<Operation>)
    ensures
        balanced(ops) <==> every_bracket_matched(ops),
{
    if balanced(ops) {
        assert forall|i: int| 0 <= i < ops.len() implies #[trigger] has_partner(ops, i) by {
            match ops[i] {
                Operation::OpenLoop => {
                    let close = lemma_find_close(ops, i, i + 1);
                    assert(matched(ops, i, close));
                },
                Operation::CloseLoop => {
                    assert(depth(ops, i + 1) >= 0);
                    assert(i > 0);
                    let open = lemma_find_open(ops, i - 1, i);
                    assert(matched(ops, open, i));
                },
                _ => {},
            }
        }
    }
    if every_bracket_matched(ops) {
        lemma_matched_never_negative(ops, ops.len() as int);
        lemma_matched_no_surplus(ops, ops.len() as int);
    }
}

} // verus!

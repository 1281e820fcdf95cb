//! What travels between an operational-transform server and its clients: an
//! instruction, or the acknowledgment that stands for one.
//!
//! A message of type `Option<I>` is an instruction `Some(instr)` or the
//! acknowledgment `None`.

use vstd::prelude::*;

verus! {

/// True iff `msg` holds a copy of `instr`.
pub open spec fn carries<I: Clone>(msg: Option<I>, instr: I) -> bool {
    msg is Some && cloned(instr, msg->Some_0)
}

/// The number of acknowledgments that wait in `queue`.
pub open spec fn acks<I>(queue: Seq<Option<I>>) -> nat
    decreases queue.len(),
{
    if queue.len() == 0 {
        0
    } else {
        acks(queue.drop_last()) + if queue.last() is None {
            1nat
        } else {
            0nat
        }
    }
}

/// The number of instructions that wait in `queue`.
pub open spec fn edits<I>(queue: Seq<Option<I>>) -> nat {
    (queue.len() - acks(queue)) as nat
}

/// A queue holds no more acknowledgments than messages.
pub proof fn lemma_acks_bounded<I>(queue: Seq<Option<I>>)
    ensures
        acks(queue) <= queue.len(),
    decreases queue.len(),
{
    if queue.len() > 0 {
        lemma_acks_bounded(queue.drop_last());
    }
}

/// A message that enters a queue counts once, as what it is.
pub proof fn lemma_acks_push<I>(queue: Seq<Option<I>>, msg: Option<I>)
    ensures
        acks(queue.push(msg)) == acks(queue) + if msg is None {
            1nat
        } else {
            0nat
        },
{
    assert(queue.push(msg).drop_last() =~= queue);
}

/// A message that leaves a queue is no longer counted.
pub proof fn lemma_acks_drop_first<I>(queue: Seq<Option<I>>)
    requires
        queue.len() > 0,
    ensures
        acks(queue.drop_first()) + if queue[0] is None {
            1nat
        } else {
            0nat
        } == acks(queue),
    decreases queue.len(),
{
    if queue.len() == 1 {
        assert(queue.drop_last() =~= Seq::<Option<I>>::empty());
        assert(queue.drop_first() =~= Seq::<Option<I>>::empty());
    } else {
        lemma_acks_drop_first(queue.drop_last());
        assert(queue.drop_first().drop_last() =~= queue.drop_last().drop_first());
    }
}

} // verus!

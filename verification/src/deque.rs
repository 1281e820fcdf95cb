//! Double-ended queues as slices.

use std::collections::VecDeque;
use vstd::prelude::*;

verus! {

/// `VecDeque::make_contiguous`: the items of the queue as one slice, in the
/// queue's order. Writing through the slice changes the items of the queue
/// and nothing else; a slice cannot change its length.
#[verifier::external_body]
pub(crate) fn contiguous<T>(queue: &mut VecDeque<T>) -> (slice: &mut [T])
    ensures
        slice@ == old(queue)@,
        final(queue)@ == final(slice)@,
        final(slice)@.len() == slice@.len(),
{
    queue.make_contiguous()
}

} // verus!

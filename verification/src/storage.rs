//! Storage that is reserved up front.
use std::collections::VecDeque;

use vstd::prelude::*;

verus! {

/// Calls `Vec::try_reserve_exact`; `true` where the allocator had the room.
///
/// The contents stay as they are. Whether there is room depends on the allocator,
/// so nothing is said of the answer.
#[verifier::external_body]
pub(crate) fn reserve_exact<T>(list: &mut Vec<T>, additional: usize) -> (reserved: bool)
    ensures
        final(list)@ == old(list)@,
{
    list.try_reserve_exact(additional).is_ok()
}

/// Calls `VecDeque::try_reserve_exact`; `true` where the allocator had the room.
///
/// The contents stay as they are. Whether there is room depends on the allocator,
/// so nothing is said of the answer.
#[verifier::external_body]
pub(crate) fn reserve_queue_exact<T>(queue: &mut VecDeque<T>, additional: usize) -> (reserved: bool)
    ensures
        final(queue)@ == old(queue)@,
{
    queue.try_reserve_exact(additional).is_ok()
}

/// Calls `Vec::capacity`: how many items the vector holds without a new allocation, which
/// is never less than it holds now.
///
/// How much more depends on the allocator.
#[verifier::external_body]
pub(crate) fn allocated<T>(list: &Vec<T>) -> (capacity: usize)
    ensures
        capacity >= list@.len(),
{
    list.capacity()
}

} // verus!

//! The operations of the standard library that keep a cell alive and count
//! its owners.
//!
//! A cell is one `std::sync::Arc` allocation, and its live count is the
//! strong count of that allocation. Nothing in this crate creates a weak
//! pointer. The verifier does not look into these functions: each contract
//! below restates what the standard library documents, and the rest of the
//! crate is proved from these contracts alone.

use std::sync::atomic::Ordering;
use std::sync::Arc;
use vstd::prelude::*;

verus! {

/// `std::sync::atomic::fence`: an ordering barrier with no value to speak
/// of. It panics when asked for `Relaxed`, so that ordering is ruled out.
pub assume_specification[ std::sync::atomic::fence ](order: Ordering)
    requires
        !(order is Relaxed),
;

/// `Arc::clone`: one more pointer to the same allocation, so the result
/// reads the same value as `cell`. The strong count goes up by one.
#[verifier::external_body]
pub(crate) fn another_share<T>(cell: &Arc<T>) -> (share: Arc<T>)
    ensures
        share == *cell,
{
    Arc::clone(cell)
}

/// `Arc::strong_count`: the number of pointers to the allocation at the
/// moment of the read. The pointer it is asked through is one of them, which
/// is all that is claimed here: other threads may drop theirs at any time.
#[verifier::external_body]
pub(crate) fn share_count<T>(cell: &Arc<T>) -> (count: usize)
    ensures
        count >= 1,
{
    Arc::strong_count(cell)
}

/// `Arc::get_mut`: a mutable borrow of the value if no other pointer to the
/// allocation exists, `None` otherwise. A borrow that is given starts at the
/// current value, and what it holds when it ends is the cell's new value. A
/// refusal changes nothing. Which of the two happens is decided by the
/// count and is not claimed here.
#[verifier::external_body]
pub(crate) fn borrow_if_unique<T>(cell: &mut Arc<T>) -> (slot: Option<&mut T>)
    ensures
        match slot {
            Some(value) => *value == **old(cell) && **final(cell) == *final(value),
            None => *final(cell) == *old(cell),
        },
{
    Arc::get_mut(cell)
}

/// `Arc::try_unwrap`: the value itself if this is the only pointer to the
/// allocation, which is then freed; otherwise the same pointer back. Which
/// of the two happens is decided by the count and is not claimed here.
#[verifier::external_body]
pub(crate) fn unwrap_if_unique<T>(cell: Arc<T>) -> (outcome: Result<T, Arc<T>>)
    ensures
        match outcome {
            Ok(value) => value == *cell,
            Err(same) => same == cell,
        },
{
    Arc::try_unwrap(cell)
}

/// `TryFrom<Vec<T>>` for `[T; N]`: the vector's items as an array, in
/// order, if there are exactly `N` of them; otherwise the vector back.
#[verifier::external_body]
pub(crate) fn into_array<T, const N: usize>(items: Vec<T>) -> (outcome: Result<[T; N], Vec<T>>)
    ensures
        match outcome {
            Ok(array) => items@.len() == N && array@ == items@,
            Err(same) => items@.len() != N && same@ == items@,
        },
{
    <[T; N]>::try_from(items)
}

} // verus!

//! The handle type and what a handle can do.

use crate::storage::{another_share, borrow_if_unique, into_array, share_count, unwrap_if_unique};
use std::ops::Deref;
use std::sync::atomic::Ordering;
use std::sync::Arc;
use vstd::prelude::*;

verus! {

/// One owner's share in a cell.
///
/// Handles are made in one batch by [`StaticArc::new`] and cannot be copied.
/// A handle is given up by dropping it, or by [`StaticArc::try_into_inner`]
/// when it is the last one. Its view is the value that the cell holds.
#[derive(Debug)]
pub struct StaticArc<T> {
    inner: Arc<T>,
}

impl<T> View for StaticArc<T> {
    type V = T;

    closed spec fn view(&self) -> T {
        *self.inner
    }
}

impl<T> StaticArc<T> {
    /// Moves `value` into a new cell with `N` owners and returns their
    /// handles, or `None` when `N` is zero.
    pub fn new<const N: usize>(value: T) -> (batch: Option<[Self; N]>)
        ensures
            match batch {
                Some(handles) => {
                    &&& N >= 1
                    &&& forall|i: int| 0 <= i < N ==> (#[trigger] handles[i])@ == value
                },
                None => N == 0,
            },
    {
        Self::new_recover(value).ok()
    }

    /// Moves `value` into a new cell with `N` owners and returns their
    /// handles. A cell without owners cannot exist: when `N` is zero the
    /// value comes back untouched and nothing is allocated.
    pub fn new_recover<const N: usize>(value: T) -> (batch: Result<[Self; N], T>)
        ensures
            match batch {
                Ok(handles) => {
                    &&& N >= 1
                    &&& forall|i: int| 0 <= i < N ==> (#[trigger] handles[i])@ == value
                },
                Err(unused) => N == 0 && unused == value,
            },
    {
        if N < 1 {
            return Err(value);
        }
        let cell = Arc::new(value);
        let mut handles: Vec<StaticArc<T>> = Vec::new();
        let mut owners: usize = 1;
        while owners < N
            invariant
                1 <= owners <= N,
                handles@.len() == owners - 1,
                *cell == value,
                forall|i: int| 0 <= i < handles@.len() ==> (#[trigger] handles@[i])@ == value,
            decreases N - owners,
        {
            handles.push(StaticArc { inner: another_share(&cell) });
            owners = owners + 1;
        }
        handles.push(StaticArc { inner: cell });
        match into_array(handles) {
            Ok(batch) => Ok(batch),
            Err(_) => vstd::pervasive::unreached(),
        }
    }

    /// The number of handles to this cell that were alive when the count was
    /// read. Other owners may give up their handles at any time, so the
    /// number may be stale on return; it is never zero, since this handle
    /// is alive. The read is followed by a sequentially consistent fence.
    pub fn live(&self) -> (count: usize)
        ensures
            count >= 1,
    {
        let count: usize = share_count(&self.inner);
        std::sync::atomic::fence(Ordering::SeqCst);
        count
    }

    /// Lends the value for writing if this handle is the only one left.
    ///
    /// The loan starts at the current value, and the value it ends with is
    /// what the handle reads afterwards. `None` means that another handle
    /// was still alive; nothing has changed and the call can be repeated.
    pub fn try_as_ref_mut(&mut self) -> (slot: Option<&mut T>)
        ensures
            match slot {
                Some(value) => *value == old(self)@ && final(self)@ == *final(value),
                None => *final(self) == *old(self),
            },
    {
        borrow_if_unique(&mut self.inner)
    }

    /// Takes the value back if this handle is the only one left. Otherwise
    /// the handle is given up like any other and `None` is returned.
    pub fn try_into_inner(self) -> (value: Option<T>)
        ensures
            value matches Some(v) ==> v == self@,
    {
        self.try_into_inner_recover().ok()
    }

    /// Takes the value back if this handle is the only one left, and frees
    /// the cell. Otherwise the same handle is returned, as usable as it was,
    /// so that the caller can try again later.
    pub fn try_into_inner_recover(self) -> (outcome: Result<T, Self>)
        ensures
            match outcome {
                Ok(value) => value == self@,
                Err(same) => same == self,
            },
    {
        match unwrap_if_unique(self.inner) {
            Ok(value) => Ok(value),
            Err(inner) => Err(StaticArc { inner }),
        }
    }
}

impl<T> Deref for StaticArc<T> {
    type Target = T;

    /// Reads the value. A live handle is all it takes.
    fn deref(&self) -> (value: &T)
        ensures
            *value == self@,
    {
        &*self.inner
    }
}

} // verus!

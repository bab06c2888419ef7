//! The counting protocol of a cell, stated on its own.
//!
//! An abstract cell has a live count, the set of handles that are alive, and
//! the value; a live handle can be dropped, can ask for exclusive access, or
//! can ask for the value back. This module defines those steps and proves
//! what the design rests on: that the count is the number of live handles
//! and never goes up, that a count of one is proof of sole ownership and
//! stays so, that the last handle gets the last value written, and that a
//! cell is finalized once and only once.
//!
//! The handles of [`crate::handle`] leave the counting to the standard
//! library. Which step a call takes there depends on what the other owners
//! have done by then, which is beyond the verifier, so the contracts of the
//! handles do not refer to this module. What is proved here is proved of the
//! protocol, not of the code that runs.

use vstd::prelude::*;

verus! {

/// A cell as the protocol sees it. Handles are told apart by their position
/// in the batch they were made in.
pub struct CellState<T> {
    /// The live count.
    pub live: nat,
    /// The handles that are alive.
    pub holders: Set<nat>,
    /// The value, for as long as the cell keeps it.
    pub value: Option<T>,
    /// How many times the value was destructed in place.
    pub destructed: nat,
    /// How many times the value was handed back to a caller.
    pub reclaimed: nat,
}

/// What a live handle can do.
pub enum Step<T> {
    /// The handle is dropped.
    Release { handle: nat },
    /// The handle asks for exclusive access and stores `value` if it gets it.
    Write { handle: nat, value: T },
    /// The handle asks for the value back.
    Reclaim { handle: nat },
}

impl<T> Step<T> {
    /// The handle that takes the step.
    pub open spec fn handle(self) -> nat {
        match self {
            Step::Release { handle } => handle,
            Step::Write { handle, .. } => handle,
            Step::Reclaim { handle } => handle,
        }
    }
}

impl<T> CellState<T> {
    /// The cell right after construction for `owners` handles.
    pub open spec fn start(value: T, owners: nat) -> Self {
        CellState {
            live: owners,
            holders: Set::<nat>::range(0, owners),
            value: Some(value),
            destructed: 0,
            reclaimed: 0,
        }
    }

    /// How many times the value left the cell for good, one way or the other.
    pub open spec fn finalizations(self) -> nat {
        self.destructed + self.reclaimed
    }

    /// The count is the number of live handles, and the value is in the cell
    /// exactly as long as a handle is alive. Once none is, the value has
    /// left the cell exactly once.
    pub open spec fn well_formed(self) -> bool {
        &&& self.holders.finite()
        &&& self.live == self.holders.len()
        &&& self.live >= 1 ==> self.value is Some && self.finalizations() == 0
        &&& self.live == 0 ==> self.value is None && self.finalizations() == 1
    }

    /// `handle` is alive and finds a count of one.
    pub open spec fn sole(self, handle: nat) -> bool {
        self.holders.contains(handle) && self.live == 1
    }

    /// The cell after `handle` was dropped. The drop that takes the count
    /// from one to zero destructs the value.
    pub open spec fn release(self, handle: nat) -> Self {
        if self.live == 1 {
            CellState {
                live: 0,
                holders: self.holders.remove(handle),
                value: None,
                destructed: self.destructed + 1,
                reclaimed: self.reclaimed,
            }
        } else {
            CellState {
                live: (self.live - 1) as nat,
                holders: self.holders.remove(handle),
                value: self.value,
                destructed: self.destructed,
                reclaimed: self.reclaimed,
            }
        }
    }

    /// The cell after `handle` asked for exclusive access in order to store
    /// `value`. Access is given to a sole owner and to nobody else.
    pub open spec fn write(self, handle: nat, value: T) -> Self {
        if self.sole(handle) {
            CellState {
                live: self.live,
                holders: self.holders,
                value: Some(value),
                destructed: self.destructed,
                reclaimed: self.reclaimed,
            }
        } else {
            self
        }
    }

    /// What `handle` gets when it asks for the value back: the value for a
    /// sole owner, nothing for anybody else.
    pub open spec fn reclaimed_value(self, handle: nat) -> Option<T> {
        if self.sole(handle) {
            self.value
        } else {
            None
        }
    }

    /// The cell after `handle` asked for the value back. A sole owner takes
    /// the value with it and is gone; anybody else changes nothing.
    pub open spec fn reclaim(self, handle: nat) -> Self {
        if self.sole(handle) {
            CellState {
                live: 0,
                holders: self.holders.remove(handle),
                value: None,
                destructed: self.destructed,
                reclaimed: self.reclaimed + 1,
            }
        } else {
            self
        }
    }

    /// The cell after one step. A handle that is not alive cannot act.
    pub open spec fn step(self, step: Step<T>) -> Self {
        if !self.holders.contains(step.handle()) {
            self
        } else {
            match step {
                Step::Release { handle } => self.release(handle),
                Step::Write { handle, value } => self.write(handle, value),
                Step::Reclaim { handle } => self.reclaim(handle),
            }
        }
    }

    /// The cell after `steps`, taken in order.
    pub open spec fn run(self, steps: Seq<Step<T>>) -> Self
        decreases steps.len(),
    {
        if steps.len() == 0 {
            self
        } else {
            self.run(steps.drop_last()).step(steps.last())
        }
    }

    /// The cell after the handles in `leaving` were dropped, in order.
    pub open spec fn release_all(self, leaving: Seq<nat>) -> Self
        decreases leaving.len(),
    {
        if leaving.len() == 0 {
            self
        } else {
            self.release_all(leaving.drop_last()).step(Step::Release { handle: leaving.last() })
        }
    }
}

/// A new cell for at least one owner is well formed: its count is the number
/// of handles made, each of them is alive, and it holds the value given.
pub proof fn lemma_start_well_formed<T>(value: T, owners: nat)
    requires
        owners >= 1,
    ensures
        CellState::start(value, owners).well_formed(),
        CellState::start(value, owners).live == owners,
        CellState::start(value, owners).value == Some(value),
        forall|handle: nat|
            handle < owners <==> #[trigger] CellState::start(value, owners).holders.contains(
                handle,
            ),
{
    vstd::set_lib::range_set_properties::<nat>(0, owners);
}

/// No step breaks well-formedness, and no step raises the count or brings a
/// handle back to life.
pub proof fn lemma_step_preserves<T>(cell: CellState<T>, step: Step<T>)
    requires
        cell.well_formed(),
    ensures
        cell.step(step).well_formed(),
        cell.step(step).live <= cell.live,
        cell.step(step).holders.subset_of(cell.holders),
{
    let handle: nat = step.handle();
    if cell.holders.contains(handle) {
        lemma_holder_counts(cell, handle);
        if cell.live == 1 {
            lemma_sole_iff_alone(cell, handle);
        }
    }
}

/// Count integrity: whatever the handles of a new cell do, and in whatever
/// order, the count stays equal to the number of live handles and never
/// exceeds the number of handles made.
pub proof fn lemma_count_integrity<T>(value: T, owners: nat, steps: Seq<Step<T>>)
    requires
        owners >= 1,
    ensures
        CellState::start(value, owners).run(steps).well_formed(),
        CellState::start(value, owners).run(steps).live == CellState::start(value, owners).run(
            steps,
        ).holders.len(),
        CellState::start(value, owners).run(steps).live <= owners,
{
    lemma_start_well_formed(value, owners);
    lemma_run_preserves(CellState::start(value, owners), steps);
}

/// Well-formedness carries over any run of steps, and the count at its end
/// is no higher than at its beginning.
pub proof fn lemma_run_preserves<T>(cell: CellState<T>, steps: Seq<Step<T>>)
    requires
        cell.well_formed(),
    ensures
        cell.run(steps).well_formed(),
        cell.run(steps).live <= cell.live,
        cell.run(steps).holders.subset_of(cell.holders),
    decreases steps.len(),
{
    if steps.len() > 0 {
        lemma_run_preserves(cell, steps.drop_last());
        lemma_step_preserves(cell.run(steps.drop_last()), steps.last());
    }
}

/// A live handle counts itself: the count it finds is at least one.
pub proof fn lemma_holder_counts<T>(cell: CellState<T>, handle: nat)
    requires
        cell.well_formed(),
        cell.holders.contains(handle),
    ensures
        cell.live >= 1,
        cell.holders.remove(handle).len() + 1 == cell.live,
{
}

/// Sole ownership: a live handle finds a count of one if and only if it is
/// the only handle alive.
pub proof fn lemma_sole_iff_alone<T>(cell: CellState<T>, handle: nat)
    requires
        cell.well_formed(),
        cell.holders.contains(handle),
    ensures
        cell.sole(handle) <==> cell.holders == set![handle],
{
    if cell.live == 1 {
        Set::lemma_is_singleton(cell.holders);
        assert(cell.holders =~= set![handle]);
    }
    if cell.holders == set![handle] {
        cell.holders.lemma_singleton_size();
    }
}

/// Sole ownership lasts: once a handle has found a count of one, no run of
/// steps by other handles changes the cell, so the handle stays the sole
/// owner of the same value for as long as it does not act itself.
pub proof fn lemma_sole_is_stable<T>(cell: CellState<T>, handle: nat, steps: Seq<Step<T>>)
    requires
        cell.well_formed(),
        cell.sole(handle),
        forall|i: int| 0 <= i < steps.len() ==> (#[trigger] steps[i]).handle() != handle,
    ensures
        cell.run(steps) == cell,
    decreases steps.len(),
{
    if steps.len() > 0 {
        lemma_sole_is_stable(cell, handle, steps.drop_last());
        lemma_sole_iff_alone(cell, handle);
    }
}

/// Exclusive access and reclamation are given to a sole owner and to nobody
/// else: a write takes effect, and the value comes back, exactly when the
/// handle that asks is the only one alive.
pub proof fn lemma_granted_iff_alone<T>(cell: CellState<T>, handle: nat, value: T)
    requires
        cell.well_formed(),
        cell.holders.contains(handle),
    ensures
        cell.holders == set![handle] ==> cell.step(Step::Write { handle, value }).value == Some(
            value,
        ),
        cell.holders != set![handle] ==> cell.step(Step::Write { handle, value }) == cell,
        cell.holders == set![handle] ==> cell.reclaimed_value(handle) == cell.value
            && cell.value is Some,
        cell.holders != set![handle] ==> cell.reclaimed_value(handle) is None && cell.step(
            Step::Reclaim { handle },
        ) == cell,
{
    lemma_sole_iff_alone(cell, handle);
}

/// Dropping handles other than `handle`, each of them alive and none of
/// them twice, takes exactly those handles away, lowers the count by their
/// number and leaves the value where it is.
pub proof fn lemma_release_siblings<T>(cell: CellState<T>, handle: nat, leaving: Seq<nat>)
    requires
        cell.well_formed(),
        cell.holders.contains(handle),
        leaving.no_duplicates(),
        forall|i: int|
            0 <= i < leaving.len() ==> cell.holders.contains(#[trigger] leaving[i]) && leaving[i]
                != handle,
    ensures
        cell.release_all(leaving).well_formed(),
        cell.release_all(leaving).live + leaving.len() == cell.live,
        cell.release_all(leaving).value == cell.value,
        cell.release_all(leaving).finalizations() == 0,
        forall|other: nat|
            #[trigger] cell.release_all(leaving).holders.contains(other) <==> cell.holders.contains(
                other,
            ) && !leaving.contains(other),
    decreases leaving.len(),
{
    if leaving.len() > 0 {
        let before = leaving.drop_last();
        let last: nat = leaving.last();
        lemma_release_siblings(cell, handle, before);
        let mid = cell.release_all(before);
        // `last` has not been dropped yet: it occurs once in `leaving`, at the end.
        assert(!before.contains(last)) by {
            if before.contains(last) {
                let i: int = choose|i: int| 0 <= i < before.len() && before[i] == last;
                assert(leaving[i] == leaving[leaving.len() - 1]);
            }
        }
        // `last` and `handle` are both alive, so the count is two or more
        // and the drop of `last` finalizes nothing.
        assert(mid.live >= 2) by {
            lemma_holder_counts(mid, last);
            assert(mid.holders.remove(last).contains(handle));
            if mid.holders.remove(last).len() == 0 {
                mid.holders.remove(last).lemma_len0_is_empty();
            }
        }
        let end = cell.release_all(leaving);
        assert forall|other: nat| #[trigger]
            end.holders.contains(other) <==> cell.holders.contains(other) && !leaving.contains(
                other,
            ) by {
            if leaving.contains(other) && other != last {
                let i: int = choose|i: int| 0 <= i < leaving.len() && leaving[i] == other;
                assert(before[i] == other);
            }
            if before.contains(other) {
                let i: int = choose|i: int| 0 <= i < before.len() && before[i] == other;
                assert(leaving[i] == other);
            }
            assert(leaving[leaving.len() - 1] == last);
        }
    }
}

/// The last handle gets the value back: once every other handle has been
/// dropped, in whatever order, the one that is left is the sole owner, and
/// what it reclaims is the value that the cell held.
pub proof fn lemma_last_handle_reclaims<T>(cell: CellState<T>, handle: nat, leaving: Seq<nat>)
    requires
        cell.well_formed(),
        cell.holders.contains(handle),
        leaving.no_duplicates(),
        forall|other: nat|
            #[trigger] leaving.contains(other) <==> cell.holders.contains(other) && other != handle,
    ensures
        cell.release_all(leaving).sole(handle),
        cell.release_all(leaving).reclaimed_value(handle) == cell.value,
        cell.value is Some,
{
    assert forall|i: int| 0 <= i < leaving.len() implies cell.holders.contains(
        #[trigger] leaving[i],
    ) && leaving[i] != handle by {
        assert(leaving.contains(leaving[i]));
    }
    lemma_release_siblings(cell, handle, leaving);
    let end = cell.release_all(leaving);
    assert(end.holders =~= set![handle]);
    lemma_sole_iff_alone(end, handle);
    lemma_holder_counts(cell, handle);
}

/// What a sole owner stores is what it reclaims afterwards.
pub proof fn lemma_reclaim_returns_last_write<T>(cell: CellState<T>, handle: nat, value: T)
    requires
        cell.well_formed(),
        cell.sole(handle),
    ensures
        cell.step(Step::Write { handle, value }).reclaimed_value(handle) == Some(value),
{
}

/// A cell is finalized once and only once: as long as a handle is alive the
/// value has not left the cell, and once none is it has left exactly once,
/// whatever the handles of a new cell did and in whatever order.
pub proof fn lemma_finalized_once<T>(value: T, owners: nat, steps: Seq<Step<T>>)
    requires
        owners >= 1,
    ensures
        CellState::start(value, owners).run(steps).finalizations() <= 1,
        CellState::start(value, owners).run(steps).finalizations() == 1 <==> CellState::start(
            value,
            owners,
        ).run(steps).live == 0,
{
    lemma_count_integrity(value, owners, steps);
}

/// The two ways to finalize exclude each other. The drop of the last handle
/// destructs the value and hands nothing back; a reclamation that succeeds
/// hands the value back and destructs nothing. After either, no step
/// changes the cell any more.
pub proof fn lemma_finalization_paths<T>(cell: CellState<T>, handle: nat, steps: Seq<Step<T>>)
    requires
        cell.well_formed(),
        cell.sole(handle),
    ensures
        cell.release(handle).destructed == 1 && cell.release(handle).reclaimed == 0,
        cell.reclaim(handle).reclaimed == 1 && cell.reclaim(handle).destructed == 0,
        cell.release(handle).run(steps) == cell.release(handle),
        cell.reclaim(handle).run(steps) == cell.reclaim(handle),
{
    lemma_sole_iff_alone(cell, handle);
    assert(cell.holders.remove(handle) =~= Set::<nat>::empty());
    lemma_empty_cell_is_final(cell.release(handle), steps);
    lemma_empty_cell_is_final(cell.reclaim(handle), steps);
}

/// A cell without live handles does not change any more.
pub proof fn lemma_empty_cell_is_final<T>(cell: CellState<T>, steps: Seq<Step<T>>)
    requires
        cell.holders == Set::<nat>::empty(),
    ensures
        cell.run(steps) == cell,
    decreases steps.len(),
{
    if steps.len() > 0 {
        lemma_empty_cell_is_final(cell, steps.drop_last());
    }
}

} // verus!

//! What holds of the table across calls, proved over its model.

use crate::error::TableError;
use crate::handle::Handle;
use crate::model::TableModel;
use crate::scope::barrier_error;
use vstd::multiset::Multiset;
use vstd::prelude::*;

verus! {

/// One call that can change the table.
pub enum Op {
    Allocate { size: nat, region: Option<usize> },
    Free { handle: Handle },
    Pin { handle: Handle },
    Unpin { handle: Handle },
    Relocate { handle: Handle, address: nat },
}

impl Op {
    /// The call respects the interface: an allocation asks for at least
    /// one byte.
    pub open spec fn admissible(self) -> bool {
        match self {
            Op::Allocate { size, region } => size > 0,
            _ => true,
        }
    }
}

/// The table after one call, whether the call succeeds or is refused.
pub open spec fn step(m: TableModel, op: Op) -> TableModel {
    match op {
        Op::Allocate { size, region } => m.after_allocate(size, region),
        Op::Free { handle } => m.after_free(handle),
        Op::Pin { handle } => m.after_pin(handle),
        Op::Unpin { handle } => m.after_unpin(handle),
        Op::Relocate { handle, address } => m.after_relocate(handle, address),
    }
}

/// The table after a sequence of calls, made in order.
pub open spec fn run(m: TableModel, ops: Seq<Op>) -> TableModel
    decreases ops.len(),
{
    if ops.len() == 0 {
        m
    } else {
        step(run(m, ops.drop_last()), ops.last())
    }
}

/// The slot a handle names has moved on to a later generation.
pub open spec fn outdated(m: TableModel, h: Handle) -> bool {
    h.slot() < m.slots.len() && m.slots[h.slot() as int].generation > h.tag()
}

/// Every call keeps the invariant of the table.
pub proof fn lemma_step_wf(m: TableModel, op: Op)
    requires
        m.wf(),
        op.admissible(),
    ensures
        step(m, op).wf(),
{
    match op {
        Op::Allocate { size, region } => m.lemma_allocate_wf(size, region),
        Op::Free { handle } => m.lemma_free_wf(handle),
        Op::Pin { handle } => m.lemma_pin_wf(handle),
        Op::Unpin { handle } => m.lemma_unpin_wf(handle),
        Op::Relocate { handle, address } => m.lemma_relocate_wf(handle, address),
    }
}

/// No sequence of calls drives a pin count below zero: after any sequence
/// of calls the invariant holds, and with it every pin count is at least
/// zero.
pub proof fn law_pin_counts_never_negative(m: TableModel, ops: Seq<Op>)
    requires
        m.wf(),
        forall|k: int| 0 <= k < ops.len() ==> (#[trigger] ops[k]).admissible(),
    ensures
        run(m, ops).wf(),
        forall|i: int|
            0 <= i < run(m, ops).slots.len() ==> (#[trigger] run(m, ops).slots[i]).pin_count >= 0,
    decreases ops.len(),
{
    if ops.len() > 0 {
        law_pin_counts_never_negative(m, ops.drop_last());
        lemma_step_wf(run(m, ops.drop_last()), ops.last());
    }
}

/// Releasing a pin that was never taken is refused with `NotPinned` and
/// changes nothing; a release that succeeds takes exactly one pin away.
pub proof fn law_unpin_is_paired(m: TableModel, h: Handle)
    requires
        m.wf(),
        m.valid(h),
    ensures
        m.entry(h).pin_count == 0 ==> m.unpin_error(h) == Some(TableError::NotPinned)
            && m.after_unpin(h) == m,
        m.entry(h).pin_count > 0 ==> m.unpin_error(h) is None && m.after_unpin(h).entry(
            h,
        ).pin_count == m.entry(h).pin_count - 1,
        m.pin_error(h) is None ==> m.after_pin(h).after_unpin(h) == m,
{
    if m.pin_error(h) is None {
        assert(m.after_pin(h).after_unpin(h).slots =~= m.slots);
    }
}

/// One call on a table leaves a pinned entry where it is: the handle stays
/// valid and its location and length are the same after the call.
pub proof fn lemma_step_keeps_pinned(m: TableModel, h: Handle, op: Op)
    requires
        m.wf(),
        op.admissible(),
        m.valid(h),
        m.entry(h).pin_count > 0,
    ensures
        step(m, op).valid(h),
        step(m, op).entry(h).address == m.entry(h).address,
        step(m, op).entry(h).size == m.entry(h).size,
{
    match op {
        Op::Allocate { size, region } => {
            m.lemma_allocate_wf(size, region);
            if m.allocate_error(region) is None {
                let p = m.prepared();
                assert(p.reusable(p.free[p.free.len() - 1]));
            }
        },
        _ => {},
    }
}

/// The location of an object does not change between a pin and its
/// matching release: whatever calls are made while the entry stays pinned,
/// up to and including the call that releases the last pin, the handle is
/// valid afterwards and names the same location.
pub proof fn law_address_stable_while_pinned(m: TableModel, h: Handle, ops: Seq<Op>)
    requires
        m.wf(),
        m.valid(h),
        forall|k: int| 0 <= k < ops.len() ==> (#[trigger] ops[k]).admissible(),
        forall|k: int|
            0 <= k < ops.len() ==> (#[trigger] run(m, ops.take(k))).entry(h).pin_count > 0,
    ensures
        run(m, ops).valid(h),
        run(m, ops).entry(h).address == m.entry(h).address,
        run(m, ops).entry(h).size == m.entry(h).size,
    decreases ops.len(),
{
    if ops.len() > 0 {
        let front = ops.drop_last();
        assert forall|k: int| 0 <= k < front.len() implies (#[trigger] run(
            m,
            front.take(k),
        )).entry(h).pin_count > 0 by {
            assert(front.take(k) =~= ops.take(k));
        }
        law_address_stable_while_pinned(m, h, front);
        law_pin_counts_never_negative(m, front);
        assert(ops.take(front.len() as int) =~= front);
        lemma_step_keeps_pinned(run(m, front), h, ops.last());
    }
}

/// A slot never returns to a generation it has left.
pub proof fn lemma_step_keeps_outdated(m: TableModel, h: Handle, op: Op)
    requires
        m.wf(),
        op.admissible(),
        outdated(m, h),
    ensures
        outdated(step(m, op), h),
{
    match op {
        Op::Allocate { size, region } => {
            m.lemma_allocate_wf(size, region);
        },
        _ => {},
    }
}

/// Once a handle has been freed it is rejected for good: after any later
/// calls, also ones that reuse its slot for a new allocation, pinning,
/// unpinning and freeing it fail with `InvalidHandle`.
pub proof fn law_stale_handle_rejected(m: TableModel, h: Handle, ops: Seq<Op>)
    requires
        m.wf(),
        m.free_error(h) is None,
        forall|k: int| 0 <= k < ops.len() ==> (#[trigger] ops[k]).admissible(),
    ensures
        outdated(run(m.after_free(h), ops), h),
        !run(m.after_free(h), ops).valid(h),
        run(m.after_free(h), ops).pin_error(h) == Some(TableError::InvalidHandle),
        run(m.after_free(h), ops).unpin_error(h) == Some(TableError::InvalidHandle),
        run(m.after_free(h), ops).free_error(h) == Some(TableError::InvalidHandle),
        run(m.after_free(h), ops).relocate_error(h) == Some(TableError::InvalidHandle),
        run(m.after_free(h), ops).lookup(h) == Err::<(nat, nat), TableError>(
            TableError::InvalidHandle,
        ),
    decreases ops.len(),
{
    m.lemma_free_wf(h);
    if ops.len() > 0 {
        law_stale_handle_rejected(m, h, ops.drop_last());
        law_pin_counts_never_negative(m.after_free(h), ops.drop_last());
        lemma_step_keeps_outdated(run(m.after_free(h), ops.drop_last()), h, ops.last());
    }
}

/// The handle an allocation issues was not valid before, is valid after,
/// and resolves to the region and length the allocation was made with;
/// the new entry carries no pin, so its first pin succeeds unless the table
/// was made to accept no pin at all.
pub proof fn law_allocate_then_pin(m: TableModel, size: nat, region: Option<usize>, h: Handle)
    requires
        m.wf(),
        size > 0,
        m.allocate_error(region) is None,
        h.slot() == m.next_slot(),
        h.tag() == m.next_generation(),
    ensures
        !m.valid(h),
        m.after_allocate(size, region).valid(h),
        m.after_allocate(size, region).lookup(h) == Ok::<(nat, nat), TableError>(
            (region.unwrap() as nat, size),
        ),
        m.after_allocate(size, region).entry(h).pin_count == 0,
        m.after_allocate(size, region).pin_error(h) is None <==> m.pin_limit > 0,
{
    m.lemma_allocate_wf(size, region);
    let p = m.prepared();
    assert(p.reusable(p.free[p.free.len() - 1]));
}

/// An allocation leaves every handle that was valid before it untouched.
pub proof fn law_allocate_keeps_others(
    m: TableModel,
    size: nat,
    region: Option<usize>,
    other: Handle,
)
    requires
        m.wf(),
        size > 0,
        m.valid(other),
    ensures
        m.after_allocate(size, region).valid(other),
        m.after_allocate(size, region).entry(other) == m.entry(other),
{
    m.lemma_allocate_wf(size, region);
    if m.allocate_error(region) is None {
        let p = m.prepared();
        assert(p.reusable(p.free[p.free.len() - 1]));
    }
}

/// Relocation keeps the handle: after it the same handle is valid and
/// resolves to the new location, with the length it had.
pub proof fn law_relocate_keeps_handle(m: TableModel, h: Handle, address: nat)
    requires
        m.wf(),
        m.relocate_error(h) is None,
    ensures
        m.after_relocate(h, address).valid(h),
        m.after_relocate(h, address).lookup(h) == Ok::<(nat, nat), TableError>(
            (address, m.entry(h).size),
        ),
        m.after_relocate(h, address).entry(h).pin_count == 0,
{
}

/// A barrier is refused while a pin of the scope is outstanding, and after
/// the matching release it answers as it would have before the pin; for a
/// scope that held nothing else it succeeds.
pub proof fn law_barrier_after_matching_unpin(record: Multiset<Handle>, h: Handle)
    ensures
        barrier_error(record.insert(h)) == Some(TableError::UnbalancedPins),
        record.insert(h).remove(h) == record,
        barrier_error(record.insert(h).remove(h)) == barrier_error(record),
        barrier_error(Multiset::<Handle>::empty().insert(h).remove(h)) is None,
{
    broadcast use vstd::multiset::group_multiset_axioms;

    assert(record.insert(h).remove(h) =~= record);
    assert(Multiset::<Handle>::empty().insert(h).remove(h) =~= Multiset::<Handle>::empty());
}

/// A live entry is eligible for relocation exactly when nothing pins it:
/// one with a pin is never eligible, taking a pin ends eligibility, and
/// releasing the last pin restores it.
pub proof fn law_eligible_iff_unpinned(m: TableModel, h: Handle)
    requires
        m.wf(),
        m.valid(h),
    ensures
        m.eligible(h) <==> m.entry(h).pin_count == 0,
        m.eligible(h) <==> m.relocate_error(h) is None,
        m.pin_error(h) is None ==> !m.after_pin(h).eligible(h),
        m.entry(h).pin_count == 1 ==> m.after_unpin(h).eligible(h),
        m.entry(h).pin_count > 1 ==> !m.after_unpin(h).eligible(h),
{
}

} // verus!

use crate::error::TableError;
use crate::handle::Handle;
use crate::model::{
    fresh_entry, EntryModel, SlotState, TableModel, MAX_GENERATION, MAX_PIN_COUNT, MAX_SLOTS,
};
use crate::scope::{barrier_error, ScopeRecord};
use vstd::prelude::*;

verus! {

/// One slot of the table as it is stored.
#[derive(Clone, Copy)]
struct Entry {
    address: usize,
    size: usize,
    pin_count: u32,
    generation: u32,
    state: SlotState,
}

impl Entry {
    spec fn model(self) -> EntryModel {
        EntryModel {
            address: self.address as nat,
            size: self.size as nat,
            pin_count: self.pin_count as int,
            generation: self.generation as nat,
            state: self.state,
        }
    }

    fn fresh() -> (e: Entry)
        ensures
            e.model() == fresh_entry(),
    {
        Entry { address: 0, size: 0, pin_count: 0, generation: 1, state: SlotState::Free }
    }

    fn is_live(&self) -> (r: bool)
        ensures
            r == (self.state == SlotState::Live),
    {
        match self.state {
            SlotState::Live => true,
            SlotState::Free => false,
        }
    }
}

/// The handle table: owns the slots, issues handles, resolves them to
/// locations and keeps the pin accounting.
///
/// The table is an explicitly owned value. It holds no memory itself: the
/// regions it tracks are supplied by the caller on `allocate` and handed
/// back to the caller on `free`.
pub struct HandleTable {
    slots: Vec<Entry>,
    free: Vec<u32>,
    limit: u32,
    pin_limit: u32,
}

impl View for HandleTable {
    type V = TableModel;

    closed spec fn view(&self) -> TableModel {
        TableModel {
            slots: Seq::new(self.slots@.len(), |i: int| self.slots@[i].model()),
            free: Seq::new(self.free@.len(), |j: int| self.free@[j] as nat),
            limit: self.limit as nat,
            pin_limit: self.pin_limit as nat,
        }
    }
}

/// Appends never-used slots until there are `target` of them.
fn extend_fresh(slots: &mut Vec<Entry>, target: usize)
    requires
        old(slots)@.len() <= target,
    ensures
        final(slots)@.len() == target,
        forall|i: int| 0 <= i < old(slots)@.len() ==> final(slots)@[i] == old(slots)@[i],
        forall|i: int| old(slots)@.len() <= i < target ==> final(slots)@[i].model() == fresh_entry(),
{
    let ghost before = slots@;
    while slots.len() < target
        invariant
            before.len() <= slots@.len() <= target,
            forall|i: int| 0 <= i < before.len() ==> slots@[i] == before[i],
            forall|i: int| before.len() <= i < slots@.len() ==> slots@[i].model() == fresh_entry(),
        decreases target - slots@.len(),
    {
        slots.push(Entry::fresh());
    }
}

/// Pushes the indices `lo..hi` in descending order, so that `lo` ends on top.
fn push_descending(free: &mut Vec<u32>, lo: usize, hi: usize)
    requires
        lo <= hi <= MAX_SLOTS,
    ensures
        final(free)@.len() == old(free)@.len() + (hi - lo),
        forall|j: int| 0 <= j < old(free)@.len() ==> final(free)@[j] == old(free)@[j],
        forall|j: int|
            old(free)@.len() <= j < final(free)@.len() ==> final(free)@[j] == hi - 1 - (j
                - old(free)@.len()),
{
    let ghost before = free@;
    let mut k: usize = hi;
    while k > lo
        invariant
            lo <= k <= hi <= MAX_SLOTS,
            free@.len() == before.len() + (hi - k),
            forall|j: int| 0 <= j < before.len() ==> free@[j] == before[j],
            forall|j: int|
                before.len() <= j < free@.len() ==> free@[j] == hi - 1 - (j - before.len()),
        decreases k,
    {
        k = k - 1;
        free.push(k as u32);
    }
}

impl HandleTable {
    /// The invariant every operation expects and keeps.
    pub open spec fn wf(&self) -> bool {
        self@.wf()
    }

    /// An empty table that may grow to the whole index space and whose
    /// entries take as many pins as the counter can hold.
    pub fn new() -> (t: HandleTable)
        ensures
            t.wf(),
            t@ == TableModel::empty(MAX_SLOTS as nat, MAX_PIN_COUNT as nat),
    {
        Self::with_limits(MAX_SLOTS, MAX_PIN_COUNT)
    }

    /// An empty table that never holds more than `limit` slots and refuses
    /// a pin on an entry that already holds `pin_limit` of them.
    pub fn with_limits(limit: u32, pin_limit: u32) -> (t: HandleTable)
        ensures
            t.wf(),
            t@ == TableModel::empty(limit as nat, pin_limit as nat),
    {
        let t = HandleTable { slots: Vec::new(), free: Vec::new(), limit, pin_limit };
        proof {
            TableModel::lemma_empty_wf(limit as nat, pin_limit as nat);
        }
        assert(t@.slots =~= Seq::empty());
        assert(t@.free =~= Seq::empty());
        t
    }

    /// Number of slots the table currently has, free ones included.
    pub fn capacity(&self) -> (r: usize)
        ensures
            r == self@.slots.len(),
    {
        self.slots.len()
    }

    /// State of the slot at `index`, or `None` beyond the slot array.
    pub fn state_of(&self, index: u32) -> (r: Option<SlotState>)
        ensures
            r == (if index < self@.slots.len() {
                Some(self@.slots[index as int].state)
            } else {
                None
            }),
    {
        if (index as usize) < self.slots.len() {
            Some(self.slots[index as usize].state)
        } else {
            None
        }
    }

    /// Bound on the number of slots.
    pub fn limit(&self) -> (r: u32)
        ensures
            r == self@.limit,
    {
        self.limit
    }

    /// Bound on the pins one entry can hold at a time.
    pub fn pin_limit(&self) -> (r: u32)
        ensures
            r == self@.pin_limit,
    {
        self.pin_limit
    }

    /// The slot of a valid handle, or the refusal every operation gives to
    /// a handle that is out of range, stale, or not live.
    fn resolve(&self, h: Handle) -> (r: Option<usize>)
        ensures
            match r {
                Some(i) => self@.valid(h) && i == h.slot(),
                None => !self@.valid(h),
            },
    {
        let i: usize = h.index() as usize;
        if i >= self.slots.len() {
            return None;
        }
        let e = self.slots[i];
        if e.is_live() && e.generation == h.generation() {
            Some(i)
        } else {
            None
        }
    }

    /// Grows the slot array by one step of the doubling policy.
    fn grow(&mut self)
        requires
            old(self).wf(),
            old(self)@.free.len() == 0,
            old(self)@.slots.len() < old(self)@.limit,
        ensures
            final(self)@ == old(self)@.grow(),
    {
        let n: usize = self.slots.len();
        let cap: usize = self.limit as usize;
        let target: usize = if n == 0 {
            1
        } else if n <= cap / 2 {
            2 * n
        } else {
            cap
        };
        assert(target == old(self)@.grown_len());
        extend_fresh(&mut self.slots, target);
        push_descending(&mut self.free, n, target);
        assert(self@.slots =~= old(self)@.grow().slots);
        assert(self@.free =~= old(self)@.grow().free);
    }

    /// Installs a live entry for a region of `size` bytes that the backing
    /// allocator granted at `region`, or reports that it granted none.
    ///
    /// A free slot is reused if there is one; otherwise the table grows.
    /// On `TableExhausted` the region stays with the caller. A handle that
    /// is issued never packs to zero, which leaves that number free to
    /// mean "no handle" wherever handles travel as plain numbers.
    pub fn allocate(&mut self, size: usize, region: Option<usize>) -> (r: Result<
        Handle,
        TableError,
    >)
        requires
            old(self).wf(),
            size > 0,
        ensures
            final(self).wf(),
            final(self)@ == old(self)@.after_allocate(size as nat, region),
            match r {
                Ok(h) => {
                    &&& old(self)@.allocate_error(region) is None
                    &&& h.slot() == old(self)@.next_slot()
                    &&& h.tag() == old(self)@.next_generation()
                    &&& h.bits() != 0
                },
                Err(e) => old(self)@.allocate_error(region) == Some(e),
            },
    {
        proof {
            old(self)@.lemma_allocate_wf(size as nat, region);
        }
        let address: usize = match region {
            Some(a) => a,
            None => {
                return Err(TableError::OutOfMemory);
            },
        };
        if self.free.len() == 0 {
            if self.slots.len() >= self.limit as usize {
                return Err(TableError::TableExhausted);
            }
            self.grow();
        }
        assert(self@ == old(self)@.prepared());
        let ghost p = self@;
        let index: u32 = self.free.pop().unwrap();
        assert(index == p.free.last());
        assert(p.reusable(index as nat));
        let generation: u32 = self.slots[index as usize].generation;
        self.slots.set(
            index as usize,
            Entry { address, size, pin_count: 0, generation, state: SlotState::Live },
        );
        assert(self@.slots =~= old(self)@.after_allocate(size as nat, region).slots);
        assert(self@.free =~= old(self)@.after_allocate(size as nat, region).free);
        let h = Handle::new(index, generation);
        assert(h.bits() != 0) by (nonlinear_arith)
            requires
                h.bits() == h.tag() * 0x1_0000_0000 + h.slot(),
                h.tag() >= 1,
        ;
        Ok(h)
    }

    /// Ends the allocation a handle names and returns the location of its
    /// region, which the caller gives back to the backing allocator.
    ///
    /// The slot's generation is bumped, so every copy of the handle is
    /// stale from now on.
    pub fn free(&mut self, h: Handle) -> (r: Result<usize, TableError>)
        requires
            old(self).wf(),
        ensures
            final(self).wf(),
            final(self)@ == old(self)@.after_free(h),
            match r {
                Ok(a) => old(self)@.free_error(h) is None && a == old(self)@.entry(h).address,
                Err(e) => old(self)@.free_error(h) == Some(e),
            },
    {
        proof {
            old(self)@.lemma_free_wf(h);
        }
        let i: usize = match self.resolve(h) {
            Some(i) => i,
            None => {
                return Err(TableError::InvalidHandle);
            },
        };
        let e = self.slots[i];
        if e.pin_count > 0 {
            return Err(TableError::HandlePinned);
        }
        let generation: u32 = e.generation + 1;
        self.slots.set(
            i,
            Entry { address: 0, size: 0, pin_count: 0, generation, state: SlotState::Free },
        );
        if generation < MAX_GENERATION {
            self.free.push(h.index());
        }
        assert(self@.slots =~= old(self)@.after_free(h).slots);
        assert(self@.free =~= old(self)@.after_free(h).free);
        Ok(e.address)
    }

    /// Read-only resolution of a handle to the location and length of its
    /// object.
    pub fn lookup(&self, h: Handle) -> (r: Result<(usize, usize), TableError>)
        requires
            self.wf(),
        ensures
            match r {
                Ok((a, s)) => self@.lookup(h) == Ok::<(nat, nat), TableError>((a as nat, s as nat)),
                Err(e) => self@.lookup(h) == Err::<(nat, nat), TableError>(e),
            },
    {
        match self.resolve(h) {
            Some(i) => {
                let e = self.slots[i];
                Ok((e.address, e.size))
            },
            None => Err(TableError::InvalidHandle),
        }
    }

    /// Number of outstanding pins of a live entry.
    pub fn pin_count(&self, h: Handle) -> (r: Result<u32, TableError>)
        requires
            self.wf(),
        ensures
            match r {
                Ok(c) => self@.valid(h) && c == self@.entry(h).pin_count,
                Err(e) => !self@.valid(h) && e == TableError::InvalidHandle,
            },
    {
        match self.resolve(h) {
            Some(i) => Ok(self.slots[i].pin_count),
            None => Err(TableError::InvalidHandle),
        }
    }

    /// Takes one pin on the entry and returns the location and length of
    /// its object. The pin is recorded in `scope`.
    ///
    /// Until the pin is released the location of the object cannot change.
    pub fn pin(&mut self, scope: &mut ScopeRecord, h: Handle) -> (r: Result<
        (usize, usize),
        TableError,
    >)
        requires
            old(self).wf(),
        ensures
            final(self).wf(),
            final(self)@ == old(self)@.after_pin(h),
            final(scope)@ == (if r is Ok {
                old(scope)@.insert(h)
            } else {
                old(scope)@
            }),
            match r {
                Ok((a, s)) => {
                    &&& old(self)@.pin_error(h) is None
                    &&& a == old(self)@.entry(h).address
                    &&& s == old(self)@.entry(h).size
                },
                Err(e) => old(self)@.pin_error(h) == Some(e),
            },
    {
        proof {
            old(self)@.lemma_pin_wf(h);
        }
        let i: usize = match self.resolve(h) {
            Some(i) => i,
            None => {
                return Err(TableError::InvalidHandle);
            },
        };
        let e = self.slots[i];
        if e.pin_count >= self.pin_limit {
            return Err(TableError::PinOverflow);
        }
        self.slots.set(i, Entry { pin_count: e.pin_count + 1, ..e });
        scope.record(h);
        assert(self@.slots =~= old(self)@.after_pin(h).slots);
        assert(self@.free =~= old(self)@.after_pin(h).free);
        Ok((e.address, e.size))
    }

    /// Releases one pin of the entry, and one record of it in `scope` if
    /// the scope holds any.
    pub fn unpin(&mut self, scope: &mut ScopeRecord, h: Handle) -> (r: Result<(), TableError>)
        requires
            old(self).wf(),
        ensures
            final(self).wf(),
            final(self)@ == old(self)@.after_unpin(h),
            final(scope)@ == (if r is Ok {
                old(scope)@.remove(h)
            } else {
                old(scope)@
            }),
            match r {
                Ok(_) => old(self)@.unpin_error(h) is None,
                Err(e) => old(self)@.unpin_error(h) == Some(e),
            },
    {
        proof {
            old(self)@.lemma_unpin_wf(h);
        }
        let i: usize = match self.resolve(h) {
            Some(i) => i,
            None => {
                return Err(TableError::InvalidHandle);
            },
        };
        let e = self.slots[i];
        if e.pin_count == 0 {
            return Err(TableError::NotPinned);
        }
        self.slots.set(i, Entry { pin_count: e.pin_count - 1, ..e });
        scope.discharge(h);
        assert(self@.slots =~= old(self)@.after_unpin(h).slots);
        assert(self@.free =~= old(self)@.after_unpin(h).free);
        Ok(())
    }

    /// Marks the end of a scope under the strict policy: the barrier is
    /// refused while the scope still records a pin, and changes nothing.
    pub fn barrier(&self, scope: &ScopeRecord) -> (r: Result<(), TableError>)
        ensures
            r is Ok <==> barrier_error(scope@) is None,
            r is Err ==> barrier_error(scope@) == Some(r->Err_0),
    {
        scope.barrier()
    }

    /// Whether the entry may be relocated now: it is live and has no pin.
    pub fn is_eligible(&self, h: Handle) -> (r: bool)
        requires
            self.wf(),
        ensures
            r == self@.eligible(h),
    {
        match self.resolve(h) {
            Some(i) => self.slots[i].pin_count == 0,
            None => false,
        }
    }

    /// The handles of all entries that may be relocated now, by ascending
    /// slot.
    pub fn eligible_handles(&self) -> (r: Vec<Handle>)
        requires
            self.wf(),
        ensures
            forall|h: Handle| r@.contains(h) <==> self@.eligible(h),
            forall|j: int, k: int| 0 <= j < k < r@.len() ==> r@[j].slot() < r@[k].slot(),
    {
        let mut out: Vec<Handle> = Vec::new();
        let mut i: usize = 0;
        while i < self.slots.len()
            invariant
                self.wf(),
                i <= self.slots@.len(),
                forall|h: Handle| out@.contains(h) <==> self@.eligible(h) && h.slot() < i,
                forall|j: int| 0 <= j < out@.len() ==> (#[trigger] out@[j]).slot() < i,
                forall|j: int, k: int| 0 <= j < k < out@.len() ==> out@[j].slot() < out@[k].slot(),
            decreases self.slots@.len() - i,
        {
            let e = self.slots[i];
            let ghost prev = out@;
            if e.is_live() && e.pin_count == 0 {
                let h = Handle::new(i as u32, e.generation);
                out.push(h);
                assert(out@[prev.len() as int] == h);
                assert forall|g: Handle| out@.contains(g) <==> self@.eligible(g) && g.slot() < i
                    + 1 by {
                    broadcast use Handle::lemma_parts;

                    if prev.contains(g) {
                        let j = choose|j: int| 0 <= j < prev.len() && prev[j] == g;
                        assert(out@[j] == g);
                    }
                    if self@.eligible(g) && g.slot() == i {
                        assert(g == h);
                    }
                }
            }
            i = i + 1;
        }
        out
    }

    /// Records that the object of an unpinned entry now lives at
    /// `address`, and returns where it lived before.
    ///
    /// Refused with `HandlePinned` while any pin is outstanding. The handle
    /// stays valid: relocation does not change the identity of the slot.
    pub fn relocate(&mut self, h: Handle, address: usize) -> (r: Result<usize, TableError>)
        requires
            old(self).wf(),
        ensures
            final(self).wf(),
            final(self)@ == old(self)@.after_relocate(h, address as nat),
            match r {
                Ok(a) => old(self)@.relocate_error(h) is None && a == old(self)@.entry(h).address,
                Err(e) => old(self)@.relocate_error(h) == Some(e),
            },
    {
        proof {
            old(self)@.lemma_relocate_wf(h, address as nat);
        }
        let i: usize = match self.resolve(h) {
            Some(i) => i,
            None => {
                return Err(TableError::InvalidHandle);
            },
        };
        let e = self.slots[i];
        if e.pin_count > 0 {
            return Err(TableError::HandlePinned);
        }
        self.slots.set(i, Entry { address, ..e });
        assert(self@.slots =~= old(self)@.after_relocate(h, address as nat).slots);
        assert(self@.free =~= old(self)@.after_relocate(h, address as nat).free);
        Ok(e.address)
    }
}

} // verus!

use crate::error::TableError;
use crate::handle::Handle;
use vstd::prelude::*;

verus! {

/// Largest generation a slot can carry. A slot whose generation reaches
/// this value is retired: it is never handed out again, so no handle ever
/// carries it.
pub const MAX_GENERATION: u32 = 0xFFFF_FFFF;

/// Largest number of pins one entry can hold at a time.
pub const MAX_PIN_COUNT: u32 = 0xFFFF_FFFF;

/// Largest number of slots a table can ever have.
pub const MAX_SLOTS: u32 = 0xFFFF_FFFF;

/// Whether a slot currently backs an allocation.
#[derive(Clone, Copy, Debug, PartialEq, Eq, Structural, Hash)]
pub enum SlotState {
    Free,
    Live,
}

/// What the table knows of one slot.
pub struct EntryModel {
    /// Current location of the object; zero while the slot is free.
    pub address: nat,
    /// Byte length of the object; zero while the slot is free.
    pub size: nat,
    /// Number of pins taken and not yet released.
    pub pin_count: int,
    /// Bumped each time the slot is freed.
    pub generation: nat,
    pub state: SlotState,
}

/// The table as a mathematical value: the slot array, the stack of slots
/// ready for reuse, and the two bounds the table was made with.
pub struct TableModel {
    pub slots: Seq<EntryModel>,
    pub free: Seq<nat>,
    /// Bound on the number of slots.
    pub limit: nat,
    /// Bound on the pins one entry can hold at a time.
    pub pin_limit: nat,
}

/// A slot that has never held an allocation. Generations start at one, so
/// that no handle the table issues packs to the number zero.
pub open spec fn fresh_entry() -> EntryModel {
    EntryModel { address: 0, size: 0, pin_count: 0, generation: 1, state: SlotState::Free }
}

pub open spec fn entry_wf(e: EntryModel) -> bool {
    &&& 0 <= e.pin_count <= MAX_PIN_COUNT
    &&& 1 <= e.generation <= MAX_GENERATION
    &&& e.state == SlotState::Free ==> e.pin_count == 0 && e.address == 0 && e.size == 0
    &&& e.state == SlotState::Live ==> e.size > 0 && e.generation < MAX_GENERATION
}

impl TableModel {
    /// A table without slots that may grow up to `limit` of them and
    /// accepts up to `pin_limit` pins on each entry.
    pub open spec fn empty(limit: nat, pin_limit: nat) -> TableModel {
        TableModel { slots: Seq::empty(), free: Seq::empty(), limit, pin_limit }
    }

    /// The slot is free and its generation can still be bumped, so it may be
    /// handed out again.
    pub open spec fn reusable(self, i: nat) -> bool {
        &&& i < self.slots.len()
        &&& self.slots[i as int].state == SlotState::Free
        &&& self.slots[i as int].generation < MAX_GENERATION
    }

    /// The invariant of the table: counters stay in range, free slots carry
    /// no pins, and the free stack lists each reusable slot exactly once.
    pub open spec fn wf(self) -> bool {
        &&& self.slots.len() <= self.limit <= MAX_SLOTS
        &&& self.pin_limit <= MAX_PIN_COUNT
        &&& forall|i: int| 0 <= i < self.slots.len() ==> entry_wf(#[trigger] self.slots[i])
        &&& forall|j: int| 0 <= j < self.free.len() ==> self.reusable(#[trigger] self.free[j])
        &&& forall|j: int, k: int|
            0 <= j < k < self.free.len() ==> #[trigger] self.free[j] != #[trigger] self.free[k]
        &&& forall|i: nat| #[trigger] self.reusable(i) ==> self.free.contains(i)
    }

    /// The handle names a live slot of the generation it was issued for.
    pub open spec fn valid(self, h: Handle) -> bool {
        &&& h.slot() < self.slots.len()
        &&& self.slots[h.slot() as int].state == SlotState::Live
        &&& self.slots[h.slot() as int].generation == h.tag()
    }

    /// The entry a handle names; meaningful for a valid handle.
    pub open spec fn entry(self, h: Handle) -> EntryModel {
        self.slots[h.slot() as int]
    }

    /// Where the object of a handle lives, and how long it is.
    pub open spec fn lookup(self, h: Handle) -> Result<(nat, nat), TableError> {
        if self.valid(h) {
            Ok((self.entry(h).address, self.entry(h).size))
        } else {
            Err(TableError::InvalidHandle)
        }
    }

    /// The entry may be relocated: it is live and nothing pins it.
    pub open spec fn eligible(self, h: Handle) -> bool {
        self.valid(h) && self.entry(h).pin_count == 0
    }

    // ----- allocation -----
    /// Number of slots after one step of growth: one slot for an empty
    /// table, else twice as many as before, capped by the limit.
    pub open spec fn grown_len(self) -> nat {
        let n = self.slots.len();
        if n == 0 {
            1
        } else if 2 * n <= self.limit {
            2 * n
        } else {
            self.limit
        }
    }

    /// The table after one step of growth. The new slots go on the free
    /// stack so that the lowest index is taken first.
    pub open spec fn grow(self) -> TableModel {
        let n = self.slots.len();
        let m = self.grown_len();
        TableModel {
            slots: self.slots + Seq::new((m - n) as nat, |j: int| fresh_entry()),
            free: self.free + Seq::new((m - n) as nat, |j: int| (m - 1 - j) as nat),
            limit: self.limit,
            pin_limit: self.pin_limit,
        }
    }

    /// The table with a slot ready to take: grown if no slot can be reused.
    pub open spec fn prepared(self) -> TableModel {
        if self.free.len() == 0 && self.slots.len() < self.limit {
            self.grow()
        } else {
            self
        }
    }

    /// Why an allocation is refused, if it is. Whether the allocator granted
    /// the region is asked first.
    pub open spec fn allocate_error(self, region: Option<usize>) -> Option<TableError> {
        if region is None {
            Some(TableError::OutOfMemory)
        } else if self.free.len() == 0 && self.slots.len() >= self.limit {
            Some(TableError::TableExhausted)
        } else {
            None
        }
    }

    /// The slot the next successful allocation takes.
    pub open spec fn next_slot(self) -> nat {
        self.prepared().free.last()
    }

    /// The generation the next successful allocation is issued under.
    pub open spec fn next_generation(self) -> nat {
        self.prepared().slots[self.next_slot() as int].generation
    }

    pub open spec fn after_allocate(self, size: nat, region: Option<usize>) -> TableModel {
        if self.allocate_error(region) is Some {
            self
        } else {
            let p = self.prepared();
            let i = p.free.last();
            TableModel {
                slots: p.slots.update(
                    i as int,
                    EntryModel {
                        address: region.unwrap() as nat,
                        size,
                        pin_count: 0,
                        generation: p.slots[i as int].generation,
                        state: SlotState::Live,
                    },
                ),
                free: p.free.drop_last(),
                limit: self.limit,
            pin_limit: self.pin_limit,
            }
        }
    }

    // ----- release -----
    pub open spec fn free_error(self, h: Handle) -> Option<TableError> {
        if !self.valid(h) {
            Some(TableError::InvalidHandle)
        } else if self.entry(h).pin_count > 0 {
            Some(TableError::HandlePinned)
        } else {
            None
        }
    }

    pub open spec fn after_free(self, h: Handle) -> TableModel {
        if self.free_error(h) is Some {
            self
        } else if self.entry(h).generation + 1 < MAX_GENERATION {
            TableModel {
                slots: self.slots.update(
                    h.slot() as int,
                    EntryModel { generation: self.entry(h).generation + 1, ..fresh_entry() },
                ),
                free: self.free.push(h.slot()),
                limit: self.limit,
            pin_limit: self.pin_limit,
            }
        } else {
            TableModel {
                slots: self.slots.update(
                    h.slot() as int,
                    EntryModel { generation: self.entry(h).generation + 1, ..fresh_entry() },
                ),
                free: self.free,
                limit: self.limit,
            pin_limit: self.pin_limit,
            }
        }
    }

    // ----- pinning -----
    pub open spec fn pin_error(self, h: Handle) -> Option<TableError> {
        if !self.valid(h) {
            Some(TableError::InvalidHandle)
        } else if self.entry(h).pin_count >= self.pin_limit {
            Some(TableError::PinOverflow)
        } else {
            None
        }
    }

    pub open spec fn with_pin_count(self, h: Handle, count: int) -> TableModel {
        TableModel {
            slots: self.slots.update(
                h.slot() as int,
                EntryModel { pin_count: count, ..self.entry(h) },
            ),
            free: self.free,
            limit: self.limit,
            pin_limit: self.pin_limit,
        }
    }

    pub open spec fn after_pin(self, h: Handle) -> TableModel {
        if self.pin_error(h) is Some {
            self
        } else {
            self.with_pin_count(h, self.entry(h).pin_count + 1)
        }
    }

    pub open spec fn unpin_error(self, h: Handle) -> Option<TableError> {
        if !self.valid(h) {
            Some(TableError::InvalidHandle)
        } else if self.entry(h).pin_count <= 0 {
            Some(TableError::NotPinned)
        } else {
            None
        }
    }

    pub open spec fn after_unpin(self, h: Handle) -> TableModel {
        if self.unpin_error(h) is Some {
            self
        } else {
            self.with_pin_count(h, self.entry(h).pin_count - 1)
        }
    }

    // ----- relocation -----
    pub open spec fn relocate_error(self, h: Handle) -> Option<TableError> {
        if !self.valid(h) {
            Some(TableError::InvalidHandle)
        } else if self.entry(h).pin_count > 0 {
            Some(TableError::HandlePinned)
        } else {
            None
        }
    }

    pub open spec fn after_relocate(self, h: Handle, address: nat) -> TableModel {
        if self.relocate_error(h) is Some {
            self
        } else {
            TableModel {
                slots: self.slots.update(
                    h.slot() as int,
                    EntryModel { address, ..self.entry(h) },
                ),
                free: self.free,
                limit: self.limit,
            pin_limit: self.pin_limit,
            }
        }
    }

    // ----- the invariant is kept -----
    pub proof fn lemma_empty_wf(limit: nat, pin_limit: nat)
        requires
            limit <= MAX_SLOTS,
            pin_limit <= MAX_PIN_COUNT,
        ensures
            Self::empty(limit, pin_limit).wf(),
    {
    }

    pub proof fn lemma_grow_wf(self)
        requires
            self.wf(),
            self.free.len() == 0,
            self.slots.len() < self.limit,
        ensures
            self.grow().wf(),
            self.grow().free.len() > 0,
            self.grow().free.last() == self.slots.len(),
    {
        let g = self.grow();
        let n = self.slots.len();
        let m = self.grown_len();
        assert forall|i: nat| #[trigger] g.reusable(i) implies g.free.contains(i) by {
            if i < n {
                assert(self.reusable(i));
                assert(self.free.contains(i));
            } else {
                assert(g.free[m - 1 - i] == i);
            }
        }
    }

    pub proof fn lemma_allocate_wf(self, size: nat, region: Option<usize>)
        requires
            self.wf(),
            size > 0,
        ensures
            self.after_allocate(size, region).wf(),
            self.allocate_error(region) is None ==> {
                &&& self.prepared().wf()
                &&& self.prepared().free.len() > 0
                &&& self.next_slot() < self.prepared().slots.len()
                &&& 1 <= self.next_generation() < MAX_GENERATION
            },
    {
        if self.allocate_error(region) is None {
            if self.free.len() == 0 {
                self.lemma_grow_wf();
            }
            let p = self.prepared();
            let a = self.after_allocate(size, region);
            let last = p.free.len() - 1;
            let i = p.free[last];
            assert(p.reusable(i));
            assert forall|x: nat| #[trigger] a.reusable(x) implies a.free.contains(x) by {
                assert(p.reusable(x));
                let j = choose|j: int| 0 <= j < p.free.len() && p.free[j] == x;
                assert(a.free[j] == x);
            }
            assert forall|j: int| 0 <= j < a.free.len() implies a.reusable(
                #[trigger] a.free[j],
            ) by {
                assert(p.reusable(p.free[j]));
                assert(p.free[j] != p.free[last]);
            }
        }
    }

    pub proof fn lemma_free_wf(self, h: Handle)
        requires
            self.wf(),
        ensures
            self.after_free(h).wf(),
    {
        let a = self.after_free(h);
        if self.free_error(h) is None {
            let s = h.slot();
            assert forall|x: nat| #[trigger] a.reusable(x) implies a.free.contains(x) by {
                if x == s {
                    assert(a.free[self.free.len() as int] == s);
                } else {
                    assert(self.reusable(x));
                    let j = choose|j: int| 0 <= j < self.free.len() && self.free[j] == x;
                    assert(a.free[j] == x);
                }
            }
            assert forall|j: int| 0 <= j < a.free.len() implies a.reusable(
                #[trigger] a.free[j],
            ) by {
                if j < self.free.len() {
                    assert(self.reusable(self.free[j]));
                }
            }
            assert forall|j: int, k: int| 0 <= j < k < a.free.len() implies #[trigger] a.free[j]
                != #[trigger] a.free[k] by {
                if k == self.free.len() {
                    assert(self.reusable(self.free[j]));
                }
            }
        }
    }

    /// A change that touches only the location and pin count of a live
    /// entry keeps the invariant.
    pub proof fn lemma_touch_wf(self, h: Handle, address: nat, count: int)
        requires
            self.wf(),
            self.valid(h),
            0 <= count <= MAX_PIN_COUNT,
        ensures
            (TableModel {
                slots: self.slots.update(
                    h.slot() as int,
                    EntryModel { address, pin_count: count, ..self.entry(h) },
                ),
                ..self
            }).wf(),
    {
        let a = TableModel {
            slots: self.slots.update(
                h.slot() as int,
                EntryModel { address, pin_count: count, ..self.entry(h) },
            ),
            ..self
        };
        assert forall|x: nat| #[trigger] a.reusable(x) implies a.free.contains(x) by {
            assert(self.reusable(x));
        }
        assert forall|j: int| 0 <= j < a.free.len() implies a.reusable(#[trigger] a.free[j]) by {
            assert(self.reusable(self.free[j]));
        }
    }

    pub proof fn lemma_pin_wf(self, h: Handle)
        requires
            self.wf(),
        ensures
            self.after_pin(h).wf(),
    {
        if self.pin_error(h) is None {
            self.lemma_touch_wf(h, self.entry(h).address, self.entry(h).pin_count + 1);
            assert(self.after_pin(h).slots =~= self.slots.update(
                h.slot() as int,
                EntryModel {
                    address: self.entry(h).address,
                    pin_count: self.entry(h).pin_count + 1,
                    ..self.entry(h)
                },
            ));
        }
    }

    pub proof fn lemma_unpin_wf(self, h: Handle)
        requires
            self.wf(),
        ensures
            self.after_unpin(h).wf(),
    {
        if self.unpin_error(h) is None {
            self.lemma_touch_wf(h, self.entry(h).address, self.entry(h).pin_count - 1);
            assert(self.after_unpin(h).slots =~= self.slots.update(
                h.slot() as int,
                EntryModel {
                    address: self.entry(h).address,
                    pin_count: self.entry(h).pin_count - 1,
                    ..self.entry(h)
                },
            ));
        }
    }

    pub proof fn lemma_relocate_wf(self, h: Handle, address: nat)
        requires
            self.wf(),
        ensures
            self.after_relocate(h, address).wf(),
    {
        if self.relocate_error(h) is None {
            self.lemma_touch_wf(h, address, self.entry(h).pin_count);
            assert(self.after_relocate(h, address).slots =~= self.slots.update(
                h.slot() as int,
                EntryModel { address, pin_count: self.entry(h).pin_count, ..self.entry(h) },
            ));
        }
    }
}

} // verus!

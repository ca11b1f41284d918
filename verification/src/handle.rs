use vstd::prelude::*;

verus! {

/// Number of distinct values of the slot index, and of the generation tag.
pub const FIELD_SPAN: u64 = 0x1_0000_0000;

/// An opaque, stable identifier of one allocation.
///
/// A handle names a slot of the table together with the generation the slot
/// had when the allocation was made. It is never an address: the only way to
/// a memory location is to pin it.
#[derive(Clone, Copy, Debug, PartialEq, Eq, Structural, Hash)]
pub struct Handle {
    index: u32,
    generation: u32,
}

impl Handle {
    /// The slot this handle names.
    pub closed spec fn slot(self) -> nat {
        self.index as nat
    }

    /// The generation of the slot at the time the handle was issued.
    pub closed spec fn tag(self) -> nat {
        self.generation as nat
    }

    /// The handle as one 64-bit number: the generation in the upper half,
    /// the slot index in the lower half.
    pub open spec fn bits(self) -> nat {
        self.tag() * 0x1_0000_0000 + self.slot()
    }

    /// Both parts of a handle fit in 32 bits, and together they determine it.
    pub broadcast proof fn lemma_parts(self)
        ensures
            #![trigger self.slot()]
            #![trigger self.tag()]
            self.slot() <= u32::MAX,
            self.tag() <= u32::MAX,
            forall|other: Handle|
                self.slot() == other.slot() && self.tag() == other.tag() ==> self == other,
    {
    }

    pub fn new(index: u32, generation: u32) -> (h: Handle)
        ensures
            h.slot() == index,
            h.tag() == generation,
    {
        Handle { index, generation }
    }

    pub fn index(&self) -> (r: u32)
        ensures
            r == self.slot(),
    {
        self.index
    }

    pub fn generation(&self) -> (r: u32)
        ensures
            r == self.tag(),
    {
        self.generation
    }

    /// Packs the handle into a fixed-width value that can cross an interface
    /// which knows nothing of this type.
    pub fn to_bits(&self) -> (r: u64)
        ensures
            r == self.bits(),
    {
        (self.generation as u64) * FIELD_SPAN + (self.index as u64)
    }

    /// Unpacks a value produced by [`Handle::to_bits`]. Every 64-bit value is
    /// the image of exactly one handle.
    pub fn from_bits(raw: u64) -> (h: Handle)
        ensures
            h.bits() == raw,
            h.slot() == raw % 0x1_0000_0000,
            h.tag() == raw / 0x1_0000_0000,
    {
        Handle { index: (raw % FIELD_SPAN) as u32, generation: (raw / FIELD_SPAN) as u32 }
    }

    /// Packing and unpacking are inverse to each other.
    pub proof fn lemma_bits_injective(self, other: Handle)
        requires
            self.bits() == other.bits(),
        ensures
            self == other,
    {
    }
}

} // verus!

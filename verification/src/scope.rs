use crate::error::TableError;
use crate::handle::Handle;
use vstd::multiset::Multiset;
use vstd::prelude::*;

verus! {

/// The pins one execution context has taken since its last barrier.
///
/// A handle is recorded once per pin, so pinning the same handle again
/// accumulates. The order of the pins carries no meaning: the record is a
/// multiset of handles.
pub struct ScopeRecord {
    pins: Vec<Handle>,
}

impl View for ScopeRecord {
    type V = Multiset<Handle>;

    closed spec fn view(&self) -> Multiset<Handle> {
        self.pins@.to_multiset()
    }
}

/// What a barrier under the strict policy answers to a scope record: it is
/// refused exactly when a pin is still recorded.
pub open spec fn barrier_error(record: Multiset<Handle>) -> Option<TableError> {
    if record.len() > 0 {
        Some(TableError::UnbalancedPins)
    } else {
        None
    }
}

impl ScopeRecord {
    /// A scope that has taken no pin yet.
    pub fn new() -> (r: ScopeRecord)
        ensures
            r@ == Multiset::<Handle>::empty(),
    {
        broadcast use vstd::seq_lib::group_to_multiset_ensures;

        let r = ScopeRecord { pins: Vec::new() };
        assert(r@.len() == 0);
        assert(r@ =~= Multiset::<Handle>::empty()) by {
            broadcast use vstd::multiset::group_multiset_axioms;

        }
        r
    }

    /// Number of pins still recorded.
    pub fn len(&self) -> (r: usize)
        ensures
            r == self@.len(),
    {
        broadcast use vstd::seq_lib::group_to_multiset_ensures;

        self.pins.len()
    }

    pub fn is_empty(&self) -> (r: bool)
        ensures
            r == (self@.len() == 0),
    {
        broadcast use vstd::seq_lib::group_to_multiset_ensures;

        self.pins.len() == 0
    }

    /// Position of the most recent recorded pin of `h`, if there is one.
    fn position(&self, h: Handle) -> (r: Option<usize>)
        ensures
            match r {
                Some(i) => i < self.pins@.len() && self.pins@[i as int] == h,
                None => !self.pins@.contains(h),
            },
    {
        let mut i: usize = self.pins.len();
        while i > 0
            invariant
                i <= self.pins@.len(),
                forall|j: int| i <= j < self.pins@.len() ==> self.pins@[j] != h,
            decreases i,
        {
            i = i - 1;
            if self.pins[i] == h {
                return Some(i);
            }
        }
        None
    }

    /// Whether the scope still records a pin of `h`.
    pub fn holds(&self, h: Handle) -> (r: bool)
        ensures
            r == (self@.count(h) > 0),
    {
        broadcast use vstd::seq_lib::group_to_multiset_ensures;

        self.position(h).is_some()
    }

    /// Notes one more pin of `h`.
    pub(crate) fn record(&mut self, h: Handle)
        ensures
            final(self)@ == old(self)@.insert(h),
    {
        broadcast use vstd::seq_lib::group_to_multiset_ensures;

        self.pins.push(h);
    }

    /// Removes one recorded pin of `h`; a scope that records none is left as
    /// it is.
    pub(crate) fn discharge(&mut self, h: Handle)
        ensures
            final(self)@ == old(self)@.remove(h),
    {
        broadcast use vstd::seq_lib::group_to_multiset_ensures;
        broadcast use vstd::multiset::group_multiset_axioms;

        match self.position(h) {
            Some(i) => {
                self.pins.remove(i);
            },
            None => {
                assert(self@.count(h) == 0);
                assert(self@.remove(h) =~= self@);
            },
        }
    }

    /// The strict barrier on this scope alone: refused while a pin is still
    /// recorded, and otherwise without effect.
    pub fn barrier(&self) -> (r: Result<(), TableError>)
        ensures
            r is Ok <==> barrier_error(self@) is None,
            r is Err ==> barrier_error(self@) == Some(r->Err_0),
    {
        if self.is_empty() {
            Ok(())
        } else {
            Err(TableError::UnbalancedPins)
        }
    }
}

} // verus!

use handle_table::{Handle, HandleTable, ScopeRecord, TableError};

/// A toy backing store: addresses are offsets into one byte array.
struct Arena {
    bytes: Vec<u8>,
    next: usize,
}

impl Arena {
    fn new(len: usize) -> Arena {
        Arena { bytes: vec![0; len], next: 16 }
    }

    fn grant(&mut self, size: usize) -> Option<usize> {
        if self.next + size > self.bytes.len() {
            return None;
        }
        let at = self.next;
        self.next += size;
        Some(at)
    }

    fn copy(&mut self, from: usize, to: usize, size: usize) {
        for i in 0..size {
            self.bytes[to + i] = self.bytes[from + i];
        }
    }
}

#[test]
fn relocated_object_keeps_its_bytes() {
    let mut arena = Arena::new(1024);
    let mut table = HandleTable::new();
    let mut scope = ScopeRecord::new();

    let region = arena.grant(64);
    let h = table.allocate(64, region).unwrap();
    let (a1, n1) = table.pin(&mut scope, h).unwrap();
    assert_eq!(n1, 64);
    assert_eq!(Some(a1), region);
    for i in 0..64 {
        arena.bytes[a1 + i] = 0xAB;
    }
    assert_eq!(table.unpin(&mut scope, h), Ok(()));
    assert_eq!(table.barrier(&scope), Ok(()));

    assert!(table.is_eligible(h));
    let target = arena.grant(64).unwrap();
    let (from, size) = table.lookup(h).unwrap();
    arena.copy(from, target, size);
    assert_eq!(table.relocate(h, target), Ok(a1));

    let (a2, n2) = table.pin(&mut scope, h).unwrap();
    assert_eq!(a2, target);
    assert_ne!(a2, a1);
    assert_eq!(n2, 64);
    for i in 0..64 {
        assert_eq!(arena.bytes[a2 + i], 0xAB);
    }
    assert_eq!(table.unpin(&mut scope, h), Ok(()));
}

#[test]
fn pinned_handle_cannot_be_freed() {
    let mut table = HandleTable::new();
    let mut scope = ScopeRecord::new();
    let h = table.allocate(8, Some(0x1000)).unwrap();
    assert_eq!(table.pin(&mut scope, h), Ok((0x1000, 8)));
    assert_eq!(table.free(h), Err(TableError::HandlePinned));
    assert_eq!(table.pin_count(h), Ok(1));
    assert_eq!(table.unpin(&mut scope, h), Ok(()));
    assert_eq!(table.free(h), Ok(0x1000));
    assert_eq!(table.pin(&mut scope, h), Err(TableError::InvalidHandle));
    assert!(scope.is_empty());
}

#[test]
fn stale_handle_is_rejected_after_slot_reuse() {
    let mut table = HandleTable::new();
    let mut scope = ScopeRecord::new();
    let old = table.allocate(8, Some(0x1000)).unwrap();
    assert_eq!(table.free(old), Ok(0x1000));

    let new = table.allocate(16, Some(0x2000)).unwrap();
    assert_eq!(new.index(), old.index());
    assert_eq!(new.generation(), old.generation() + 1);
    assert_ne!(new, old);

    assert_eq!(table.pin(&mut scope, old), Err(TableError::InvalidHandle));
    assert_eq!(table.unpin(&mut scope, old), Err(TableError::InvalidHandle));
    assert_eq!(table.free(old), Err(TableError::InvalidHandle));
    assert_eq!(table.lookup(old), Err(TableError::InvalidHandle));
    assert_eq!(table.relocate(old, 0x3000), Err(TableError::InvalidHandle));
    assert_eq!(table.pin_count(old), Err(TableError::InvalidHandle));
    assert!(!table.is_eligible(old));

    assert_eq!(table.lookup(new), Ok((0x2000, 16)));
    assert_eq!(table.pin(&mut scope, new), Ok((0x2000, 16)));
}

#[test]
fn unpin_without_pin_fails_and_changes_nothing() {
    let mut table = HandleTable::new();
    let mut scope = ScopeRecord::new();
    let h = table.allocate(8, Some(0x1000)).unwrap();
    assert_eq!(table.unpin(&mut scope, h), Err(TableError::NotPinned));
    assert_eq!(table.pin_count(h), Ok(0));
    assert_eq!(table.pin(&mut scope, h), Ok((0x1000, 8)));
    assert_eq!(table.unpin(&mut scope, h), Ok(()));
    assert_eq!(table.unpin(&mut scope, h), Err(TableError::NotPinned));
    assert_eq!(table.pin_count(h), Ok(0));
}

#[test]
fn address_is_stable_while_pinned() {
    let mut table = HandleTable::new();
    let mut scope = ScopeRecord::new();
    let h = table.allocate(32, Some(0x1000)).unwrap();
    let other = table.allocate(32, Some(0x5000)).unwrap();
    assert_eq!(table.pin(&mut scope, h), Ok((0x1000, 32)));
    assert_eq!(table.relocate(h, 0x9000), Err(TableError::HandlePinned));
    assert_eq!(table.relocate(other, 0x7000), Ok(0x5000));
    assert_eq!(table.free(other), Ok(0x7000));
    let third = table.allocate(4, Some(0x8000)).unwrap();
    assert_ne!(third.index(), h.index());
    assert_eq!(table.lookup(h), Ok((0x1000, 32)));
    assert_eq!(table.pin(&mut scope, h), Ok((0x1000, 32)));
    assert_eq!(table.unpin(&mut scope, h), Ok(()));
    assert_eq!(table.relocate(h, 0x9000), Err(TableError::HandlePinned));
    assert_eq!(table.unpin(&mut scope, h), Ok(()));
    assert_eq!(table.lookup(h), Ok((0x1000, 32)));
    assert_eq!(table.relocate(h, 0x9000), Ok(0x1000));
    assert_eq!(table.lookup(h), Ok((0x9000, 32)));
}

#[test]
fn strict_barrier_needs_balanced_pins() {
    let mut table = HandleTable::new();
    let mut scope = ScopeRecord::new();
    assert_eq!(table.barrier(&scope), Ok(()));
    let h = table.allocate(8, Some(0x1000)).unwrap();
    assert_eq!(table.pin(&mut scope, h), Ok((0x1000, 8)));
    assert_eq!(table.barrier(&scope), Err(TableError::UnbalancedPins));
    assert_eq!(scope.barrier(), Err(TableError::UnbalancedPins));
    assert_eq!(table.pin_count(h), Ok(1));
    assert_eq!(table.unpin(&mut scope, h), Ok(()));
    assert_eq!(table.barrier(&scope), Ok(()));
    assert_eq!(scope.barrier(), Ok(()));
}

#[test]
fn eligibility_follows_the_pin_count() {
    let mut table = HandleTable::new();
    let mut scope = ScopeRecord::new();
    let a = table.allocate(8, Some(0x1000)).unwrap();
    let b = table.allocate(8, Some(0x2000)).unwrap();
    let c = table.allocate(8, Some(0x3000)).unwrap();
    assert_eq!(table.eligible_handles(), vec![a, b, c]);

    assert_eq!(table.pin(&mut scope, b), Ok((0x2000, 8)));
    assert!(table.is_eligible(a));
    assert!(!table.is_eligible(b));
    assert_eq!(table.barrier(&scope), Err(TableError::UnbalancedPins));
    assert!(!table.is_eligible(b));
    assert_eq!(table.eligible_handles(), vec![a, c]);

    assert_eq!(table.free(a), Ok(0x1000));
    assert!(!table.is_eligible(a));
    assert_eq!(table.eligible_handles(), vec![c]);

    assert_eq!(table.unpin(&mut scope, b), Ok(()));
    assert_eq!(table.barrier(&scope), Ok(()));
    assert!(table.is_eligible(b));
    assert_eq!(table.eligible_handles(), vec![b, c]);
}

#[test]
fn forged_handle_is_invalid() {
    let mut table = HandleTable::new();
    let mut scope = ScopeRecord::new();
    let h = table.allocate(8, Some(0x1000)).unwrap();
    let beyond = Handle::new(h.index() + 100, h.generation());
    let wrong_generation = Handle::new(h.index(), h.generation() + 1);
    assert_eq!(table.pin(&mut scope, beyond), Err(TableError::InvalidHandle));
    assert_eq!(table.pin(&mut scope, wrong_generation), Err(TableError::InvalidHandle));
    assert_eq!(table.free(Handle::from_bits(0)), Err(TableError::InvalidHandle));
    assert!(scope.is_empty());
    assert_eq!(table.lookup(h), Ok((0x1000, 8)));
}

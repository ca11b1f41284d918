use handle_table::{Handle, HandleTable, ScopeRecord, SlotState, TableError};

#[test]
fn slot_states_follow_allocate_and_free() {
    let mut table = HandleTable::new();
    assert_eq!(table.state_of(0), None);
    let a = table.allocate(1, Some(0x100)).unwrap();
    let b = table.allocate(1, Some(0x200)).unwrap();
    assert_eq!(table.state_of(a.index()), Some(SlotState::Live));
    assert_eq!(table.state_of(b.index()), Some(SlotState::Live));
    assert_eq!(table.free(a), Ok(0x100));
    assert_eq!(table.state_of(a.index()), Some(SlotState::Free));
    assert_eq!(table.state_of(b.index()), Some(SlotState::Live));
    assert_eq!(table.state_of(2), None);
}

#[test]
fn allocate_reports_out_of_memory_first() {
    let mut table = HandleTable::with_limits(0, 8);
    assert_eq!(table.allocate(8, None), Err(TableError::OutOfMemory));
    assert_eq!(table.allocate(8, Some(0x1000)), Err(TableError::TableExhausted));
    let mut roomy = HandleTable::new();
    assert_eq!(roomy.allocate(8, None), Err(TableError::OutOfMemory));
    assert_eq!(roomy.capacity(), 0);
}

#[test]
fn table_exhausted_until_a_slot_is_freed() {
    let mut table = HandleTable::with_limits(2, 8);
    let a = table.allocate(8, Some(0x1000)).unwrap();
    let b = table.allocate(8, Some(0x2000)).unwrap();
    assert_eq!(table.allocate(8, Some(0x3000)), Err(TableError::TableExhausted));
    assert_eq!(table.lookup(a), Ok((0x1000, 8)));
    assert_eq!(table.lookup(b), Ok((0x2000, 8)));
    assert_eq!(table.free(a), Ok(0x1000));
    let c = table.allocate(4, Some(0x3000)).unwrap();
    assert_eq!(c, Handle::new(a.index(), a.generation() + 1));
    assert_eq!(table.allocate(8, Some(0x4000)), Err(TableError::TableExhausted));
}

#[test]
fn pin_overflow_at_the_pin_limit() {
    let mut table = HandleTable::with_limits(4, 3);
    let mut scope = ScopeRecord::new();
    let h = table.allocate(8, Some(0x1000)).unwrap();
    assert_eq!(table.pin(&mut scope, h), Ok((0x1000, 8)));
    assert_eq!(table.pin(&mut scope, h), Ok((0x1000, 8)));
    assert_eq!(table.pin(&mut scope, h), Ok((0x1000, 8)));
    assert_eq!(table.pin(&mut scope, h), Err(TableError::PinOverflow));
    assert_eq!(table.pin_count(h), Ok(3));
    assert_eq!(scope.len(), 3);
    assert_eq!(table.unpin(&mut scope, h), Ok(()));
    assert_eq!(table.pin(&mut scope, h), Ok((0x1000, 8)));
}

#[test]
fn capacity_doubles_up_to_the_limit() {
    let mut table = HandleTable::with_limits(5, 8);
    assert_eq!(table.limit(), 5);
    assert_eq!(table.pin_limit(), 8);
    assert_eq!(table.capacity(), 0);
    let mut seen = Vec::new();
    for i in 0..5usize {
        let h = table.allocate(1, Some(0x100 * (i + 1))).unwrap();
        assert_eq!(h.index() as usize, i);
        assert_eq!(h.generation(), 1);
        seen.push(table.capacity());
    }
    assert_eq!(seen, vec![1, 2, 4, 4, 5]);
    assert_eq!(table.allocate(1, Some(0x900)), Err(TableError::TableExhausted));
    assert_eq!(table.capacity(), 5);
}

#[test]
fn freed_slots_are_reused_last_freed_first() {
    let mut table = HandleTable::new();
    let a = table.allocate(1, Some(0x100)).unwrap();
    let b = table.allocate(1, Some(0x200)).unwrap();
    let c = table.allocate(1, Some(0x300)).unwrap();
    assert_eq!(table.capacity(), 4);
    assert_eq!(table.free(a), Ok(0x100));
    assert_eq!(table.free(c), Ok(0x300));
    let d = table.allocate(1, Some(0x400)).unwrap();
    let e = table.allocate(1, Some(0x500)).unwrap();
    let f = table.allocate(1, Some(0x600)).unwrap();
    assert_eq!(d, Handle::new(c.index(), 2));
    assert_eq!(e, Handle::new(a.index(), 2));
    assert_eq!(f, Handle::new(3, 1));
    assert_eq!(table.capacity(), 4);
    assert_eq!(table.lookup(b), Ok((0x200, 1)));
}

#[test]
fn handle_packs_generation_above_index() {
    let h = Handle::new(3, 7);
    assert_eq!(h.to_bits(), (7u64 << 32) | 3);
    assert_eq!(Handle::from_bits(h.to_bits()), h);
    assert_eq!(h.index(), 3);
    assert_eq!(h.generation(), 7);
    let top = Handle::from_bits(u64::MAX);
    assert_eq!(top.index(), u32::MAX);
    assert_eq!(top.generation(), u32::MAX);
    assert_eq!(top.to_bits(), u64::MAX);
    assert_eq!(Handle::from_bits(0), Handle::new(0, 0));
}

#[test]
fn issued_handles_never_pack_to_zero() {
    let mut table = HandleTable::new();
    let h = table.allocate(1, Some(0x100)).unwrap();
    assert_eq!(h.index(), 0);
    assert_ne!(h.to_bits(), 0);
    assert_eq!(h.to_bits(), 1u64 << 32);
}

#[test]
fn scope_counts_each_pin() {
    let mut table = HandleTable::new();
    let mut scope = ScopeRecord::new();
    let a = table.allocate(1, Some(0x100)).unwrap();
    let b = table.allocate(1, Some(0x200)).unwrap();
    assert!(scope.is_empty());
    assert!(!scope.holds(a));
    assert_eq!(table.pin(&mut scope, a), Ok((0x100, 1)));
    assert_eq!(table.pin(&mut scope, b), Ok((0x200, 1)));
    assert_eq!(table.pin(&mut scope, a), Ok((0x100, 1)));
    assert_eq!(scope.len(), 3);
    assert!(scope.holds(a) && scope.holds(b));
    assert_eq!(table.unpin(&mut scope, a), Ok(()));
    assert_eq!(scope.len(), 2);
    assert!(scope.holds(a));
    assert_eq!(table.unpin(&mut scope, a), Ok(()));
    assert!(!scope.holds(a));
    assert!(scope.holds(b));
    assert_eq!(table.pin_count(a), Ok(0));
    assert_eq!(table.pin_count(b), Ok(1));
}

#[test]
fn pins_are_shared_between_scopes() {
    let mut table = HandleTable::new();
    let mut first = ScopeRecord::new();
    let mut second = ScopeRecord::new();
    let h = table.allocate(1, Some(0x100)).unwrap();
    assert_eq!(table.pin(&mut first, h), Ok((0x100, 1)));
    assert_eq!(table.pin(&mut second, h), Ok((0x100, 1)));
    assert_eq!(table.pin_count(h), Ok(2));
    assert_eq!(table.unpin(&mut first, h), Ok(()));
    assert_eq!(table.barrier(&first), Ok(()));
    assert_eq!(table.barrier(&second), Err(TableError::UnbalancedPins));
    assert!(!table.is_eligible(h));
    assert_eq!(table.unpin(&mut second, h), Ok(()));
    assert_eq!(table.barrier(&second), Ok(()));
    assert!(table.is_eligible(h));
}

#[test]
fn error_kinds_have_names() {
    assert_eq!(TableError::OutOfMemory.name(), "OutOfMemory");
    assert_eq!(TableError::TableExhausted.name(), "TableExhausted");
    assert_eq!(TableError::InvalidHandle.name(), "InvalidHandle");
    assert_eq!(TableError::HandlePinned.name(), "HandlePinned");
    assert_eq!(TableError::PinOverflow.name(), "PinOverflow");
    assert_eq!(TableError::NotPinned.name(), "NotPinned");
    assert_eq!(TableError::UnbalancedPins.name(), "UnbalancedPins");
    assert!(TableError::OutOfMemory.is_recoverable());
    assert!(TableError::TableExhausted.is_recoverable());
    assert!(!TableError::InvalidHandle.is_recoverable());
    assert!(!TableError::HandlePinned.is_recoverable());
    assert!(!TableError::PinOverflow.is_recoverable());
    assert!(!TableError::NotPinned.is_recoverable());
    assert!(!TableError::UnbalancedPins.is_recoverable());
}

//! A handle table for relocatable allocations.
//!
//! Callers address objects through stable [`Handle`]s. A handle is resolved
//! to a memory location by pinning it; while any pin is outstanding the
//! location cannot change. A barrier closes a scope of pins, and entries
//! without pins are reported as eligible for relocation.
//!
//! The table never touches raw memory itself: regions are obtained from and
//! returned to a backing allocator by the caller, and pass through the table
//! as plain addresses.
//!
//! Policies, fixed for every table:
//! - A barrier is strict: it is refused with `UnbalancedPins` while its scope
//!   still records a pin, and never releases a pin on the caller's behalf.
//! - Freeing a pinned handle is refused with `HandlePinned`; nothing is
//!   queued for a later release.
//! - Pins accumulate: every pin needs one release of its own, also when the
//!   same handle is pinned again by the same scope.
//!
//! A table is an owned value and every change goes through `&mut`. Callers
//! that share one table between threads put it behind a lock of their own;
//! a scope record belongs to one execution context.

pub mod error;
pub mod handle;
pub mod laws;
pub mod model;
pub mod scope;
pub mod table;

pub use error::TableError;
pub use handle::Handle;
pub use model::{EntryModel, SlotState, TableModel};
pub use scope::ScopeRecord;
pub use table::HandleTable;

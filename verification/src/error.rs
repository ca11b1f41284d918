use vstd::prelude::*;

verus! {

/// Every way an operation on the table can be refused.
///
/// All of them are detected synchronously by the call that triggers them and
/// leave the table and the scope record as they were.
#[derive(Clone, Copy, Debug, PartialEq, Eq, Structural, Hash)]
pub enum TableError {
    /// The backing allocator could not supply the requested region.
    OutOfMemory,
    /// No slot can be reused and the slot array cannot grow any further.
    TableExhausted,
    /// The handle is out of range, stale, or names a slot that is not live.
    InvalidHandle,
    /// The entry still has outstanding pins.
    HandlePinned,
    /// One more pin would not fit in the pin counter.
    PinOverflow,
    /// The entry has no outstanding pin to release.
    NotPinned,
    /// A barrier was reached while the scope still records pins.
    UnbalancedPins,
}

impl TableError {
    /// Whether a caller may sensibly retry after releasing memory elsewhere.
    pub open spec fn recoverable(self) -> bool {
        self == TableError::OutOfMemory || self == TableError::TableExhausted
    }

    /// Tells resource exhaustion apart from misuse of the interface.
    pub fn is_recoverable(&self) -> (r: bool)
        ensures
            r == self.recoverable(),
    {
        match self {
            TableError::OutOfMemory => true,
            TableError::TableExhausted => true,
            _ => false,
        }
    }

    /// The name of the error kind as a sequence of characters.
    pub open spec fn label(self) -> Seq<char> {
        match self {
            TableError::OutOfMemory => "OutOfMemory"@,
            TableError::TableExhausted => "TableExhausted"@,
            TableError::InvalidHandle => "InvalidHandle"@,
            TableError::HandlePinned => "HandlePinned"@,
            TableError::PinOverflow => "PinOverflow"@,
            TableError::NotPinned => "NotPinned"@,
            TableError::UnbalancedPins => "UnbalancedPins"@,
        }
    }

    /// A short stable name of the error kind.
    pub fn name(&self) -> (r: &'static str)
        ensures
            r@ == self.label(),
    {
        match self {
            TableError::OutOfMemory => "OutOfMemory",
            TableError::TableExhausted => "TableExhausted",
            TableError::InvalidHandle => "InvalidHandle",
            TableError::HandlePinned => "HandlePinned",
            TableError::PinOverflow => "PinOverflow",
            TableError::NotPinned => "NotPinned",
            TableError::UnbalancedPins => "UnbalancedPins",
        }
    }
}

} // verus!

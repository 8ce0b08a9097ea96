//! Request-level error kinds of the journal engine.
//!
//! Errors are tagged by kind, never by message text, so that the server
//! layer and the tests can branch on the kind.

use vstd::prelude::*;

verus! {

/// The errors a journal engine operation can return to its caller.
#[derive(Clone, Copy, Debug, PartialEq, Eq, Structural)]
pub enum JournalError {
    /// A new active segment was requested while the shard still has one.
    ShardBusy,
    /// The named segment is not the shard's current active segment.
    NotActive,
    /// A seal was requested with an end offset before the segment's start.
    NonMonotonicOffset,
    /// An append would carry the active segment past the rotation size.
    CapacityExceeded,
    /// A read range reaches past the end of the segment.
    OutOfRange,
    /// A primary reassignment named a replica outside the in-sync set.
    NotInSync,
    /// The persisted metadata and the local segment files disagree.
    InconsistentState,
}

impl JournalError {
    /// A short stable name for the error kind, for logs and wire mapping.
    pub fn kind_name(&self) -> (r: &'static str)
        ensures
            r@ == self.spec_kind_name(),
    {
        proof {
            reveal_strlit("ShardBusy");
            reveal_strlit("NotActive");
            reveal_strlit("NonMonotonicOffset");
            reveal_strlit("CapacityExceeded");
            reveal_strlit("OutOfRange");
            reveal_strlit("NotInSync");
            reveal_strlit("InconsistentState");
        }
        match self {
            JournalError::ShardBusy => "ShardBusy",
            JournalError::NotActive => "NotActive",
            JournalError::NonMonotonicOffset => "NonMonotonicOffset",
            JournalError::CapacityExceeded => "CapacityExceeded",
            JournalError::OutOfRange => "OutOfRange",
            JournalError::NotInSync => "NotInSync",
            JournalError::InconsistentState => "InconsistentState",
        }
    }

    /// The name each kind carries.
    pub open spec fn spec_kind_name(self) -> Seq<char> {
        match self {
            JournalError::ShardBusy => "ShardBusy"@,
            JournalError::NotActive => "NotActive"@,
            JournalError::NonMonotonicOffset => "NonMonotonicOffset"@,
            JournalError::CapacityExceeded => "CapacityExceeded"@,
            JournalError::OutOfRange => "OutOfRange"@,
            JournalError::NotInSync => "NotInSync"@,
            JournalError::InconsistentState => "InconsistentState"@,
        }
    }
}

} // verus!

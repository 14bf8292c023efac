//! The error taxonomy: every failure surfaces to the caller as one of these
//! typed values; empty "nothing to do" results are successes, not errors.

use vstd::prelude::*;

verus! {

/// A failure of a ledger, review or synchronization operation.
#[derive(Debug, Clone, PartialEq, Eq)]
pub enum WorklogError {
    /// A malformed time-span was rejected before any mutation.
    ValidationError(String),
    /// A removal or update named an id that no record carries.
    NotFoundError(String),
    /// The ledger file or the edited batch was malformed.
    ParseError(String),
    /// A filesystem read or write failed.
    IOError(String),
    /// The external editor exited unsuccessfully.
    EditorError(String),
    /// The remote tracker rejected a record, or transport failed; carries
    /// the offending record's identity.
    SyncError { id: String, reason: String },
}

} // verus!

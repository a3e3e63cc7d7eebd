//! The error kinds a store operation can report.

use vstd::prelude::*;

verus! {

/// Why a store operation failed: the input was rejected before anything was
/// written, the requested record does not exist, or the storage layer itself
/// failed.
#[derive(Clone, Copy, Debug, PartialEq, Eq, Structural)]
pub enum StoreError {
    Validation,
    NotFound,
    Storage,
}

} // verus!

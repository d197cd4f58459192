//! The errors a tree builder or proof generator can report.

use vstd::prelude::*;

verus! {

/// Every failure is local and recoverable: it is reported as a value at the
/// offending call, never raised as a fault. Verification failure is not an
/// error; it surfaces only as a `false` result.
#[derive(Clone, Copy, Debug, PartialEq, Eq, Structural)]
pub enum MerkleError {
    /// Construction was requested over zero records.
    EmptyInput,
    /// The record count exceeds the fixed ceiling.
    InputTooLarge,
    /// A zero parallelism hint was supplied.
    InvalidParallelism,
    /// A proof was requested for an index at or past the record count.
    LeafIndexOutOfBounds,
    /// A root-hash query reached a tree without a root.
    RootMissing,
}

} // verus!

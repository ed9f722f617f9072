//! The error taxonomy of the store.

use vstd::prelude::*;

verus! {

/// A fatal failure of an engine operation.
///
/// Non-fatal conditions are reported differently: a malformed trailing log
/// record only truncates replay (`OpenOutcome::log_truncated`), and failures
/// to reclaim stale files are left to the disk shell, which retries them on
/// the next checkpoint.
#[derive(Clone, Copy, Debug, PartialEq, Eq, Structural)]
pub enum StoreError {
    /// A file-system operation failed, or a value could not be serialized.
    IoFailure,
    /// The version pointer file is missing or does not hold a decimal number.
    CorruptVersion,
    /// The checkpoint file for the current version is missing or malformed.
    CorruptCheckpoint,
}

} // verus!

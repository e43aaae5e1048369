//! What can go wrong when a snapshot is stored or read back.

use vstd::prelude::*;

verus! {

/// What the operating system reported when a file operation failed.
#[derive(Debug, PartialEq, Eq)]
pub struct IoFailure {
    /// The operating system's error number, where it gave one.
    pub code: Option<i32>,
    /// Its description of the failure.
    pub reason: String,
}

/// Why a snapshot could not be stored or read back.
#[derive(Debug, PartialEq, Eq)]
pub enum StorageError {
    /// A file could not be created, opened, read, written or renamed.
    Io(IoFailure),
    /// The bytes are not a snapshot: a count or an element cannot be read,
    /// or the bytes do not end where the count says they should.
    CorruptData,
}

} // verus!

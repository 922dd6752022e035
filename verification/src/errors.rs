//! The error taxonomy of the store.
//!
//! The three storage kinds are reported by the storage backend; the
//! reference kinds are produced by the database facade after a successful
//! read. No operation silently recovers from any of them.

use vstd::prelude::*;

verus! {

/// Every way a database operation can fail.
#[derive(Clone, Copy, PartialEq, Eq, Structural, Debug)]
pub enum DbError {
    /// The underlying medium could not be read (for instance a missing file).
    StorageRead,
    /// The medium was read but its content is not a well-formed, schema-matching
    /// serialized state.
    StorageParse,
    /// The medium could not be written.
    StorageWrite,
    /// No epic is stored under the given id.
    EpicNotFound(u32),
    /// No story is stored under the given id.
    StoryNotFound(u32),
    /// The epic exists but does not reference the given story id.
    StoryNotInEpic(u32, u32),
}

impl DbError {
    /// Whether this is one of the three storage-level kinds.
    pub open spec fn is_storage(self) -> bool {
        self == DbError::StorageRead || self == DbError::StorageParse || self
            == DbError::StorageWrite
    }
}

} // verus!

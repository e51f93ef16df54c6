//! The failures that the object store reports.

use vstd::prelude::*;

verus! {

/// Why an operation on objects failed.
#[derive(Debug, Clone, Copy, PartialEq, Eq, Structural)]
pub enum StoreError {
    /// The header is not text, has no NUL terminator, or is not of the
    /// form `<token> <digits>`; or a tree entry is malformed.
    Format,
    /// The header names a kind that is not known, or that the operation
    /// does not handle.
    UnsupportedKind,
    /// The payload is shorter or longer than the header declares.
    SizeMismatch,
    /// The store holds nothing at the object's path.
    NotFound,
    /// A file was given where a directory is needed, or the reverse.
    PathKindMismatch,
    /// A directory entry is neither a regular file nor a directory.
    UnsupportedEntryType,
    /// The zlib stream could not be read or produced.
    Zlib,
    /// A command was called without the one option it supports.
    Usage,
}

impl StoreError {
    /// True for the failures that mean the stored bytes are damaged, as
    /// opposed to a misuse by the caller.
    pub open spec fn spec_is_corruption(self) -> bool {
        self == StoreError::Format || self == StoreError::UnsupportedKind
            || self == StoreError::SizeMismatch || self == StoreError::Zlib
    }

    /// Tells whether this failure means that the stored bytes are damaged.
    #[verifier::when_used_as_spec(spec_is_corruption)]
    pub fn is_corruption(self) -> (damaged: bool)
        ensures
            damaged == self.spec_is_corruption(),
    {
        match self {
            StoreError::Format => true,
            StoreError::UnsupportedKind => true,
            StoreError::SizeMismatch => true,
            StoreError::Zlib => true,
            _ => false,
        }
    }
}

} // verus!

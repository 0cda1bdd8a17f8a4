//! Errors of the whole-cache operations.

use vstd::prelude::*;

use crate::entry::EntryError;
use crate::header::HeaderError;

verus! {

/// What can go wrong in an operation over whole cache files.
#[derive(Clone, Copy, Debug, PartialEq, Eq, Structural)]
pub enum Error {
    /// Two files of one operation carry different format versions.
    VersionMismatch { expected: u32, found: u32 },
    /// The operation would produce a cache with no entries.
    NoEntriesFound,
    /// A file header could not be decoded.
    ReadHeader(HeaderError),
    /// An entry could not be decoded.
    ReadEntry(EntryError),
}

impl Error {
    /// A version-mismatch error naming the expected and the found version.
    pub fn version_mismatch(expected: u32, found: u32) -> (r: Self)
        ensures
            r == (Error::VersionMismatch { expected, found }),
    {
        Error::VersionMismatch { expected, found }
    }
}

} // verus!

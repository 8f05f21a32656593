//! The error taxonomy of the store.

use vstd::prelude::*;

verus! {

/// Everything that can go wrong in the store.
#[derive(Clone, Copy, Debug, PartialEq, Eq, Structural)]
pub enum Error {
    /// The target path of a fresh store exists and is not a directory.
    ConfigurationError,
    /// The target directory of an existing store does not exist.
    NotInitialized,
    /// A lookup or a removal named a key the catalog does not hold.
    KeyNotFound,
    /// An underlying read, write or seek failed.
    IOFailure,
    /// A metadata document could not be decoded.
    CorruptMetadata,
    /// A location reaches past the end of the blob log.
    TruncatedRead,
}

} // verus!

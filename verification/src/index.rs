//! Locations inside the blob log.

use vstd::prelude::*;

verus! {

/// A contiguous byte range `[offset, offset + length)` inside the blob
/// log.  A location is never mutated once created, only superseded.
#[derive(Clone, Copy, Debug, PartialEq, Eq, Structural)]
pub struct Index {
    pub offset: u64,
    pub length: u64,
}

} // verus!

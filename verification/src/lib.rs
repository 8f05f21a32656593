//! An embedded single-node key/value blob store.
//!
//! Values are byte sequences appended to an append-only blob log and
//! addressed by string keys through a catalog of locations.  Deleted
//! locations are remembered on a reclaim list.  The catalog and the
//! reclaim list serialize to CBOR documents; the caller persists those
//! documents and the log bytes to files and hands them back to reopen
//! a store.

pub mod blob;
pub mod catalog;
pub mod codec;
pub mod errors;
pub mod index;
pub mod laws;
pub mod reclaim;
pub mod store;

pub use errors::Error;
pub use index::Index;
pub use store::Store;

//! The blob log: an append-only sequence of raw value bytes.

use vstd::prelude::*;

use crate::errors::Error;
use crate::index::Index;

verus! {

/// What reading a location out of the log yields: exactly its bytes,
/// or a truncated read when the location reaches past the end of the
/// log.  A short range is never zero-padded.
pub open spec fn read_model(log: Seq<u8>, loc: Index) -> Result<Seq<u8>, Error> {
    if loc.offset + loc.length <= log.len() {
        Ok(log.subrange(loc.offset as int, loc.offset as int + loc.length as int))
    } else {
        Err(Error::TruncatedRead)
    }
}

/// The append-only log of raw value bytes, held back-to-back with no
/// header and no per-record framing.  Bytes are never removed or
/// overwritten here; deletion is purely a catalog and reclaim-list
/// concern.
pub struct BlobLog {
    bytes: Vec<u8>,
}

impl View for BlobLog {
    type V = Seq<u8>;

    closed spec fn view(&self) -> Seq<u8> {
        self.bytes@
    }
}

impl BlobLog {
    /// A fresh, empty log.
    pub fn new() -> (r: BlobLog)
        ensures
            r@ == Seq::<u8>::empty(),
    {
        let r = BlobLog { bytes: Vec::new() };
        proof {
            assert(r@ =~= Seq::<u8>::empty());
        }
        r
    }

    /// A log over bytes read back from storage.
    pub fn from_bytes(bytes: Vec<u8>) -> (r: BlobLog)
        ensures
            r@ == bytes@,
    {
        BlobLog { bytes }
    }

    /// The current size of the log in bytes.
    pub fn size(&self) -> (r: u64)
        ensures
            r == self@.len(),
    {
        self.bytes.len() as u64
    }

    /// A copy of the whole log, for the caller to mirror to storage.
    pub fn contents(&self) -> (r: Vec<u8>)
        ensures
            r@ == self@,
    {
        let mut out: Vec<u8> = Vec::new();
        let mut i: usize = 0;
        while i < self.bytes.len()
            invariant
                i <= self.bytes.len(),
                out@ == self@.take(i as int),
            decreases self.bytes.len() - i,
        {
            out.push(self.bytes[i]);
            assert(out@ =~= self@.take(i as int + 1));
            i = i + 1;
        }
        proof {
            assert(self@.take(self.bytes.len() as int) =~= self@);
        }
        out
    }

    /// Append the value bytes at the end of the log and return the
    /// location they occupy.  Existing bytes are never overwritten.
    pub fn append(&mut self, val: &Vec<u8>) -> (loc: Index)
        ensures
            final(self)@ == old(self)@ + val@,
            loc.offset == old(self)@.len(),
            loc.length == val@.len(),
    {
        let offset = self.bytes.len() as u64;
        let length = val.len() as u64;
        let mut i: usize = 0;
        while i < val.len()
            invariant
                i <= val.len(),
                self.bytes@ == old(self).bytes@ + val@.take(i as int),
            decreases val.len() - i,
        {
            self.bytes.push(val[i]);
            assert(self.bytes@ =~= old(self).bytes@ + val@.take(i as int + 1));
            i = i + 1;
        }
        proof {
            assert(self.bytes@ =~= old(self).bytes@ + val@);
        }
        Index { offset, length }
    }

    /// Read exactly the bytes of `loc` out of the log.
    pub fn read_at(&self, loc: Index) -> (r: Result<Vec<u8>, Error>)
        ensures
            match r {
                Ok(v) => read_model(self@, loc) == Ok::<Seq<u8>, Error>(v@),
                Err(e) => read_model(self@, loc) == Err::<Seq<u8>, Error>(e),
            },
    {
        let n = self.bytes.len();
        if loc.length > n as u64 || loc.offset > n as u64 - loc.length {
            return Err(Error::TruncatedRead);
        }
        let off = loc.offset as usize;
        let len = loc.length as usize;
        let mut out: Vec<u8> = Vec::new();
        let mut i: usize = 0;
        while i < len
            invariant
                off + len <= self.bytes.len(),
                i <= len,
                out@ == self@.subrange(off as int, off as int + i as int),
            decreases len - i,
        {
            out.push(self.bytes[off + i]);
            assert(out@ =~= self@.subrange(off as int, off as int + i as int + 1));
            i = i + 1;
        }
        Ok(out)
    }
}

} // verus!

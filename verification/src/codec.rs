//! Serialization of the two metadata documents.
//!
//! The catalog and the reclaim list each persist as one CBOR document:
//! a self-describing encoding of a sequence of key/range pairs, and of
//! a sequence of ranges.  Encoding and decoding are ciborium's work;
//! the documents it produces are named by uninterpreted functions, and
//! decoding is relied upon to invert encoding on exactly those
//! documents.

use vstd::prelude::*;

use crate::catalog::pairs_view;
use crate::errors::Error;

verus! {

/// The CBOR document for a sequence of catalog key/range pairs.  Its
/// byte shape is ciborium's business; the library relies only on the
/// document being a function of the pairs alone.
pub uninterp spec fn catalog_doc(pairs: Seq<(Seq<char>, (u64, u64))>) -> Seq<u8>;

/// The CBOR document for a sequence of reclaimed ranges.
pub uninterp spec fn empties_doc(pairs: Seq<(u64, u64)>) -> Seq<u8>;

/// Relies on ciborium::ser::into_writer: writing key/range pairs to a
/// byte vector yields a document that depends on the pairs alone, and
/// serializing strings and integers into a byte vector has no
/// reachable error path, so encoding succeeds.
#[verifier::external_body]
pub(crate) fn encode_catalog_pairs(pairs: &Vec<(String, (u64, u64))>) -> (r: Result<
    Vec<u8>,
    Error,
>)
    ensures
        r is Ok,
        r matches Ok(b) ==> b@ == catalog_doc(pairs_view(pairs@)),
{
    let mut out: Vec<u8> = Vec::new();
    match ciborium::ser::into_writer(pairs, &mut out) {
        Ok(()) => Ok(out),
        Err(_) => Err(Error::IOFailure),
    }
}

/// Relies on ciborium::de::from_reader: on a document that
/// ciborium::ser::into_writer produced for some key/range pairs,
/// decoding succeeds and hands those pairs back; on empty input it
/// fails at end-of-input before producing anything.
#[verifier::external_body]
pub(crate) fn decode_catalog_pairs(bytes: &Vec<u8>) -> (r: Result<
    Vec<(String, (u64, u64))>,
    Error,
>)
    ensures
        (exists|s: Seq<(Seq<char>, (u64, u64))>| bytes@ == catalog_doc(s)) ==> r is Ok,
        bytes@.len() == 0 ==> r is Err,
        r matches Ok(v) ==> forall|s: Seq<(Seq<char>, (u64, u64))>|
            bytes@ == catalog_doc(s) ==> pairs_view(v@) == s,
        r matches Err(e) ==> e == Error::CorruptMetadata,
{
    match ciborium::de::from_reader(bytes.as_slice()) {
        Ok(v) => Ok(v),
        Err(_) => Err(Error::CorruptMetadata),
    }
}

/// Relies on ciborium::ser::into_writer: writing reclaimed ranges to a
/// byte vector yields a document that depends on the ranges alone, and
/// serializing integers into a byte vector has no reachable error
/// path, so encoding succeeds.
#[verifier::external_body]
pub(crate) fn encode_empties_pairs(pairs: &Vec<(u64, u64)>) -> (r: Result<Vec<u8>, Error>)
    ensures
        r is Ok,
        r matches Ok(b) ==> b@ == empties_doc(pairs@),
{
    let mut out: Vec<u8> = Vec::new();
    match ciborium::ser::into_writer(pairs, &mut out) {
        Ok(()) => Ok(out),
        Err(_) => Err(Error::IOFailure),
    }
}

/// Relies on ciborium::de::from_reader: on a document that
/// ciborium::ser::into_writer produced for some reclaimed ranges,
/// decoding succeeds and hands those ranges back; on empty input it
/// fails at end-of-input before producing anything.
#[verifier::external_body]
pub(crate) fn decode_empties_pairs(bytes: &Vec<u8>) -> (r: Result<Vec<(u64, u64)>, Error>)
    ensures
        (exists|s: Seq<(u64, u64)>| bytes@ == empties_doc(s)) ==> r is Ok,
        bytes@.len() == 0 ==> r is Err,
        r matches Ok(v) ==> forall|s: Seq<(u64, u64)>| bytes@ == empties_doc(s) ==> v@ == s,
        r matches Err(e) ==> e == Error::CorruptMetadata,
{
    match ciborium::de::from_reader(bytes.as_slice()) {
        Ok(v) => Ok(v),
        Err(_) => Err(Error::CorruptMetadata),
    }
}

} // verus!

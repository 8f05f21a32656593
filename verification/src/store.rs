//! The store facade: create, open, store, retrieve, delete.

use vstd::prelude::*;

use crate::blob::{read_model, BlobLog};
use crate::catalog::{
    find_loc, insert_all, insert_loc, lemma_find_none_no_match, lemma_insert_all_restore,
    lemma_insert_unique, lemma_remove_loc_none, lemma_remove_unique, plain_entries, remove_loc,
    unique_keys, Catalog,
};
use crate::codec::{
    catalog_doc, decode_catalog_pairs, decode_empties_pairs, empties_doc, encode_catalog_pairs,
    encode_empties_pairs,
};
use crate::errors::Error;
use crate::index::Index;
use crate::reclaim::{lemma_pairs_roundtrip, locs_of_pairs, pairs_of_locs, ReclaimList};

verus! {

/// What a store is: the bytes of the blob log, the catalog entries,
/// and the reclaimed locations.
pub struct StoreModel {
    pub blob: Seq<u8>,
    pub catalog: Seq<(Seq<char>, Index)>,
    pub empties: Seq<Index>,
}

/// The model of a freshly created store.
pub open spec fn empty_model() -> StoreModel {
    StoreModel {
        blob: Seq::<u8>::empty(),
        catalog: Seq::<(Seq<char>, Index)>::empty(),
        empties: Seq::<Index>::empty(),
    }
}

/// What storing does: the value bytes go to the end of the blob log,
/// and the catalog maps the key to the range they occupy.  A prior
/// mapping for the key is silently superseded; its bytes stay in the
/// log as dead space and are not recorded on the reclaim list.
pub open spec fn store_model(m: StoreModel, k: Seq<char>, v: Seq<u8>) -> StoreModel {
    StoreModel {
        blob: m.blob + v,
        catalog: insert_loc(
            m.catalog,
            k,
            Index { offset: m.blob.len() as u64, length: v.len() as u64 },
        ),
        empties: m.empties,
    }
}

/// What retrieving returns: a catalog miss fails, and a hit reads the
/// mapped range out of the blob log.
pub open spec fn retrieve_model(m: StoreModel, k: Seq<char>) -> Result<Seq<u8>, Error> {
    match find_loc(m.catalog, k) {
        None => Err(Error::KeyNotFound),
        Some(loc) => read_model(m.blob, loc),
    }
}

/// Whether deleting succeeds: exactly when the catalog holds the key.
pub open spec fn delete_result(m: StoreModel, k: Seq<char>) -> Result<(), Error> {
    if find_loc(m.catalog, k) is Some {
        Ok(())
    } else {
        Err(Error::KeyNotFound)
    }
}

/// What deleting does: the mapping moves from the catalog to the
/// reclaim list; the blob log keeps the dead bytes in place.
pub open spec fn delete_model(m: StoreModel, k: Seq<char>) -> StoreModel {
    match find_loc(m.catalog, k) {
        Some(loc) => StoreModel {
            blob: m.blob,
            catalog: remove_loc(m.catalog, k),
            empties: m.empties.push(loc),
        },
        None => m,
    }
}

/// Decides creation of a fresh store at a target path, described by
/// whether the path exists and whether it is a directory.  A path that
/// exists as something other than a directory is refused; a missing
/// path is fine, the caller creates the directory tree.
pub fn create_check(path_exists: bool, path_is_dir: bool) -> (r: Result<(), Error>)
    ensures
        r == (if path_exists && !path_is_dir {
            Err::<(), Error>(Error::ConfigurationError)
        } else {
            Ok::<(), Error>(())
        }),
{
    if path_exists && !path_is_dir {
        Err(Error::ConfigurationError)
    } else {
        Ok(())
    }
}

/// Decides opening an existing store at a target path: a path that
/// does not exist holds no store to open.
pub fn open_check(path_exists: bool) -> (r: Result<(), Error>)
    ensures
        r == (if path_exists {
            Ok::<(), Error>(())
        } else {
            Err::<(), Error>(Error::NotInitialized)
        }),
{
    if path_exists {
        Ok(())
    } else {
        Err(Error::NotInitialized)
    }
}

/// The store: the blob log, the catalog and the reclaim list, under
/// one exclusive owner.  Mutating calls require exclusive access; no
/// internal locking exists, and sharing across owners or processes is
/// not supported.
pub struct Store {
    blob: BlobLog,
    catalog: Catalog,
    empties: ReclaimList,
}

impl View for Store {
    type V = StoreModel;

    closed spec fn view(&self) -> StoreModel {
        StoreModel { blob: self.blob@, catalog: self.catalog@, empties: self.empties@ }
    }
}

impl Store {
    /// The catalog keys are pairwise distinct.
    pub open spec fn wf(&self) -> bool {
        unique_keys(self@.catalog)
    }

    /// A fresh store: empty log, empty catalog, empty reclaim list.
    /// The caller persists the initial documents and the empty log.
    pub fn new() -> (r: Store)
        ensures
            r.wf(),
            r@ == empty_model(),
    {
        Store { blob: BlobLog::new(), catalog: Catalog::new(), empties: ReclaimList::new() }
    }

    /// An existing store, rebuilt eagerly and completely from the log
    /// bytes and the two metadata documents.  A document that decodes
    /// to nothing is a fatal corruption error; no partial recovery is
    /// attempted.  An empty metadata file is not a valid zero-entry
    /// document and is refused the same way.
    pub fn open(blob: Vec<u8>, catalog_bytes: &Vec<u8>, empties_bytes: &Vec<u8>) -> (r: Result<
        Store,
        Error,
    >)
        ensures
            r matches Ok(st) ==> st.wf() && st@.blob == blob@ && (forall|
                s: Seq<(Seq<char>, (u64, u64))>,
            |
                catalog_bytes@ == catalog_doc(s) ==> st@.catalog == insert_all(
                    Seq::<(Seq<char>, Index)>::empty(),
                    s,
                )) && (forall|e: Seq<(u64, u64)>|
                empties_bytes@ == empties_doc(e) ==> st@.empties == locs_of_pairs(e)),
            ((exists|s: Seq<(Seq<char>, (u64, u64))>| catalog_bytes@ == catalog_doc(s))
                && (exists|e: Seq<(u64, u64)>| empties_bytes@ == empties_doc(e))) ==> r is Ok,
            catalog_bytes@.len() == 0 || empties_bytes@.len() == 0 ==> r is Err,
            r matches Err(e) ==> e == Error::CorruptMetadata,
    {
        let cat_pairs = match decode_catalog_pairs(catalog_bytes) {
            Ok(p) => p,
            Err(e) => {
                return Err(e);
            },
        };
        let emp_pairs = match decode_empties_pairs(empties_bytes) {
            Ok(p) => p,
            Err(e) => {
                return Err(e);
            },
        };
        let catalog = Catalog::from_pairs(&cat_pairs);
        let empties = ReclaimList::from_pairs(&emp_pairs);
        Ok(Store { blob: BlobLog::from_bytes(blob), catalog, empties })
    }

    /// Store a value under a key: append the bytes to the blob log,
    /// map the key to the range they occupy.  The caller then persists
    /// the new catalog document and the appended log bytes.
    pub fn store(&mut self, key: String, val: Vec<u8>) -> (r: Result<(), Error>)
        requires
            old(self).wf(),
        ensures
            final(self).wf(),
            r is Ok,
            final(self)@ == store_model(old(self)@, key@, val@),
    {
        proof {
            lemma_insert_unique(
                self@.catalog,
                key@,
                Index { offset: self@.blob.len() as u64, length: val@.len() as u64 },
            );
        }
        let loc = self.blob.append(&val);
        self.catalog.insert(key, loc);
        Ok(())
    }

    /// Retrieve the value stored under a key: a catalog miss fails
    /// with `KeyNotFound`, a hit reads the mapped range out of the
    /// blob log.  Read-only; no side effects.
    pub fn retrieve(&self, key: &String) -> (r: Result<Vec<u8>, Error>)
        ensures
            match r {
                Ok(v) => retrieve_model(self@, key@) == Ok::<Seq<u8>, Error>(v@),
                Err(e) => retrieve_model(self@, key@) == Err::<Seq<u8>, Error>(e),
            },
    {
        match self.catalog.lookup(key) {
            None => Err(Error::KeyNotFound),
            Some(loc) => self.blob.read_at(loc),
        }
    }

    /// Delete the mapping for a key, recording the freed range on the
    /// reclaim list.  The blob log keeps the dead bytes in place.  The
    /// caller then persists both metadata documents.
    pub fn delete(&mut self, key: &String) -> (r: Result<(), Error>)
        requires
            old(self).wf(),
        ensures
            final(self).wf(),
            r == delete_result(old(self)@, key@),
            final(self)@ == delete_model(old(self)@, key@),
    {
        proof {
            lemma_remove_unique(self@.catalog, key@);
        }
        match self.catalog.remove(key) {
            None => {
                proof {
                    lemma_find_none_no_match(old(self)@.catalog, key@);
                    lemma_remove_loc_none(old(self)@.catalog, key@);
                }
                Err(Error::KeyNotFound)
            },
            Some(loc) => {
                self.empties.record(loc);
                Ok(())
            },
        }
    }

    /// How many keys the catalog holds.
    pub fn catalog_len(&self) -> (r: usize)
        ensures
            r == self@.catalog.len(),
    {
        self.catalog.len()
    }

    /// How many vacated locations the reclaim list holds.
    pub fn empties_len(&self) -> (r: usize)
        ensures
            r == self@.empties.len(),
    {
        self.empties.len()
    }

    /// The current size of the blob log in bytes.
    pub fn log_size(&self) -> (r: u64)
        ensures
            r == self@.blob.len(),
    {
        self.blob.size()
    }

    /// A copy of the blob log bytes, for the caller to mirror to
    /// storage.
    pub fn log_bytes(&self) -> (r: Vec<u8>)
        ensures
            r@ == self@.blob,
    {
        self.blob.contents()
    }

    /// The catalog's metadata document: a full image of the current
    /// mapping, written as a complete replacement on every mutation.
    pub fn catalog_document(&self) -> (r: Result<Vec<u8>, Error>)
        ensures
            r is Ok,
            r matches Ok(b) ==> b@ == catalog_doc(plain_entries(self@.catalog)),
    {
        let pairs = self.catalog.to_pairs();
        encode_catalog_pairs(&pairs)
    }

    /// The reclaim list's metadata document, independent of the
    /// catalog's.
    pub fn empties_document(&self) -> (r: Result<Vec<u8>, Error>)
        ensures
            r is Ok,
            r matches Ok(b) ==> b@ == empties_doc(pairs_of_locs(self@.empties)),
    {
        let pairs = self.empties.to_pairs();
        encode_empties_pairs(&pairs)
    }

    /// Persistence round trip: serialize the metadata documents, copy
    /// the log bytes, and open a second store from them.  This always
    /// succeeds, and the reopened store holds exactly the same log,
    /// catalog and reclaim list.
    pub fn reopen(&self) -> (r: Result<Store, Error>)
        requires
            self.wf(),
        ensures
            r is Ok,
            r matches Ok(st) ==> st.wf() && st@.blob == self@.blob && st@.catalog == self@.catalog
                && st@.empties == self@.empties,
    {
        let cat_bytes = match self.catalog_document() {
            Ok(b) => b,
            Err(e) => {
                return Err(e);
            },
        };
        let emp_bytes = match self.empties_document() {
            Ok(b) => b,
            Err(e) => {
                return Err(e);
            },
        };
        let r = Store::open(self.log_bytes(), &cat_bytes, &emp_bytes);
        proof {
            assert(Seq::<(Seq<char>, Index)>::empty() + self@.catalog =~= self@.catalog);
            lemma_insert_all_restore(Seq::<(Seq<char>, Index)>::empty(), self@.catalog);
            lemma_pairs_roundtrip(self@.empties);
        }
        match r {
            Ok(st) => Ok(st),
            Err(_) => Err(Error::IOFailure),
        }
    }
}

} // verus!

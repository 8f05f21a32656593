//! The laws of the store, stated and proved over its model.

use vstd::prelude::*;

use crate::catalog::{
    count_key, find_loc, lemma_count_insert, lemma_find_insert, lemma_find_loc_none,
    lemma_find_remove_same, lemma_first_match_exists, lemma_insert_loc_append,
    lemma_insert_loc_at, lemma_insert_unique, lemma_remove_loc_at, unique_keys,
};
use crate::errors::Error;
use crate::index::Index;
use crate::store::{
    delete_model, delete_result, empty_model, retrieve_model, store_model, StoreModel,
};

verus! {

/// Round trip: storing a value under a key and then retrieving the
/// key returns exactly that value, byte for byte, for any length
/// including zero.
pub proof fn lemma_store_then_retrieve(m: StoreModel, k: Seq<char>, v: Seq<u8>)
    requires
        m.blob.len() + v.len() <= u64::MAX,
    ensures
        retrieve_model(store_model(m, k, v), k) == Ok::<Seq<u8>, Error>(v),
{
    let loc = Index { offset: m.blob.len() as u64, length: v.len() as u64 };
    lemma_find_insert(m.catalog, k, loc, k);
    assert((m.blob + v).subrange(
        m.blob.len() as int,
        m.blob.len() as int + v.len() as int,
    ) =~= v);
}

/// Storing one key leaves retrieval of every other key whose live
/// location lies within the log alone.
pub proof fn lemma_store_other_key(m: StoreModel, k: Seq<char>, v: Seq<u8>, k2: Seq<char>)
    requires
        k2 != k,
        find_loc(m.catalog, k2) matches Some(loc) ==> loc.offset + loc.length <= m.blob.len(),
    ensures
        retrieve_model(store_model(m, k, v), k2) == retrieve_model(m, k2),
{
    let loc = Index { offset: m.blob.len() as u64, length: v.len() as u64 };
    lemma_find_insert(m.catalog, k, loc, k2);
    match find_loc(m.catalog, k2) {
        Some(loc2) => {
            assert((m.blob + v).subrange(
                loc2.offset as int,
                loc2.offset as int + loc2.length as int,
            ) =~= m.blob.subrange(loc2.offset as int, loc2.offset as int + loc2.length as int));
        },
        None => {},
    }
}

/// Overwrite: storing twice under one key leaves the second value to
/// retrieve, exactly one catalog entry for the key, and a blob log
/// that reflects both appends — the first value's bytes stay in place,
/// unreachable.
pub proof fn lemma_overwrite(m: StoreModel, k: Seq<char>, v1: Seq<u8>, v2: Seq<u8>)
    requires
        unique_keys(m.catalog),
        m.blob.len() + v1.len() + v2.len() <= u64::MAX,
    ensures
        retrieve_model(store_model(store_model(m, k, v1), k, v2), k) == Ok::<Seq<u8>, Error>(v2),
        count_key(store_model(store_model(m, k, v1), k, v2).catalog, k) == 1,
        store_model(store_model(m, k, v1), k, v2).blob == m.blob + v1 + v2,
{
    let m1 = store_model(m, k, v1);
    lemma_store_then_retrieve(m1, k, v2);
    let loc1 = Index { offset: m.blob.len() as u64, length: v1.len() as u64 };
    lemma_insert_unique(m.catalog, k, loc1);
    lemma_count_insert(
        m1.catalog,
        k,
        Index { offset: m1.blob.len() as u64, length: v2.len() as u64 },
    );
}

/// Delete then miss: after storing and deleting a key, retrieval
/// fails with `KeyNotFound`, and a second delete fails the same way.
pub proof fn lemma_delete_then_miss(m: StoreModel, k: Seq<char>, v: Seq<u8>)
    requires
        unique_keys(m.catalog),
    ensures
        delete_result(store_model(m, k, v), k) == Ok::<(), Error>(()),
        retrieve_model(delete_model(store_model(m, k, v), k), k) == Err::<Seq<u8>, Error>(
            Error::KeyNotFound,
        ),
        delete_result(delete_model(store_model(m, k, v), k), k) == Err::<(), Error>(
            Error::KeyNotFound,
        ),
{
    let loc = Index { offset: m.blob.len() as u64, length: v.len() as u64 };
    lemma_find_insert(m.catalog, k, loc, k);
    lemma_insert_unique(m.catalog, k, loc);
    lemma_find_remove_same(store_model(m, k, v).catalog, k);
}

/// Two byte ranges that do not overlap.
pub open spec fn ranges_disjoint(a: Index, b: Index) -> bool {
    a.offset + a.length <= b.offset || b.offset + b.length <= a.offset
}

/// The catalog invariant: every live entry's range lies within the
/// blob log, and no two live entries' ranges overlap.
pub open spec fn catalog_ranges_ok(m: StoreModel) -> bool {
    &&& forall|i: int|
        0 <= i < m.catalog.len() ==> m.catalog[i].1.offset + m.catalog[i].1.length <= m.blob.len()
    &&& forall|i: int, j: int|
        0 <= i < j < m.catalog.len() ==> ranges_disjoint(m.catalog[i].1, m.catalog[j].1)
}

/// A fresh store satisfies the catalog invariant vacuously.
pub proof fn lemma_empty_ranges_ok()
    ensures
        catalog_ranges_ok(empty_model()),
{
}

/// Storing preserves the catalog invariant: the fresh range sits
/// beyond the old end of the log, past every live range.
pub proof fn lemma_store_preserves_ranges(m: StoreModel, k: Seq<char>, v: Seq<u8>)
    requires
        catalog_ranges_ok(m),
        m.blob.len() + v.len() <= u64::MAX,
    ensures
        catalog_ranges_ok(store_model(m, k, v)),
{
    let loc = Index { offset: m.blob.len() as u64, length: v.len() as u64 };
    let cat = m.catalog;
    let m2 = store_model(m, k, v);
    if exists|i: int| 0 <= i < cat.len() && cat[i].0 == k {
        lemma_first_match_exists(cat, k);
        let i = choose|i: int|
            0 <= i < cat.len() && cat[i].0 == k && (forall|j: int| 0 <= j < i ==> cat[j].0 != k);
        lemma_insert_loc_at(cat, k, loc, i);
        assert(m2.catalog == cat.update(i, (k, loc)));
    } else {
        assert(forall|j: int| 0 <= j < cat.len() ==> cat[j].0 != k);
        lemma_insert_loc_append(cat, k, loc);
        assert(m2.catalog == cat.push((k, loc)));
    }
    assert forall|a: int, b: int|
        0 <= a < b < m2.catalog.len() implies ranges_disjoint(m2.catalog[a].1, m2.catalog[b].1) by {
        if m2.catalog[a].1 != loc && a < cat.len() && b < cat.len() && m2.catalog[a] == cat[a]
            && m2.catalog[b] == cat[b] {
            assert(ranges_disjoint(cat[a].1, cat[b].1));
        }
    }
}

/// Deleting preserves the catalog invariant: the surviving entries
/// are a selection of the old ones over the same log.
pub proof fn lemma_delete_preserves_ranges(m: StoreModel, k: Seq<char>)
    requires
        catalog_ranges_ok(m),
    ensures
        catalog_ranges_ok(delete_model(m, k)),
{
    let cat = m.catalog;
    match find_loc(cat, k) {
        None => {},
        Some(_) => {
            if exists|i: int| 0 <= i < cat.len() && cat[i].0 == k {
                lemma_first_match_exists(cat, k);
                let i = choose|i: int|
                    0 <= i < cat.len() && cat[i].0 == k && (forall|j: int|
                        0 <= j < i ==> cat[j].0 != k);
                lemma_remove_loc_at(cat, k, i);
                let t = cat.remove(i);
                assert forall|a: int|
                    0 <= a < t.len() implies t[a].1.offset + t[a].1.length <= m.blob.len() by {
                    let a0 = if a < i {
                        a
                    } else {
                        a + 1
                    };
                    assert(t[a] == cat[a0]);
                }
                assert forall|a: int, b: int|
                    0 <= a < b < t.len() implies ranges_disjoint(t[a].1, t[b].1) by {
                    let a0 = if a < i {
                        a
                    } else {
                        a + 1
                    };
                    let b0 = if b < i {
                        b
                    } else {
                        b + 1
                    };
                    assert(t[a] == cat[a0]);
                    assert(t[b] == cat[b0]);
                    assert(ranges_disjoint(cat[a0].1, cat[b0].1));
                }
            } else {
                lemma_find_loc_none(cat, k);
            }
        },
    }
}

/// One step of a store/delete history.
pub enum StoreOp {
    Store { key: Seq<char>, value: Seq<u8> },
    Delete { key: Seq<char> },
}

/// The model after one operation.
pub open spec fn apply_op(m: StoreModel, op: StoreOp) -> StoreModel {
    match op {
        StoreOp::Store { key, value } => store_model(m, key, value),
        StoreOp::Delete { key } => delete_model(m, key),
    }
}

/// The model after a whole history of operations.
pub open spec fn apply_ops(m: StoreModel, ops: Seq<StoreOp>) -> StoreModel
    decreases ops.len(),
{
    if ops.len() == 0 {
        m
    } else {
        apply_ops(apply_op(m, ops[0]), ops.drop_first())
    }
}

/// Growth monotonicity: across any sequence of store and delete
/// operations the blob log never shrinks.  Space would be recovered
/// only by an explicit compaction pass, and none exists.
pub proof fn lemma_growth_monotonic(m: StoreModel, ops: Seq<StoreOp>)
    ensures
        apply_ops(m, ops).blob.len() >= m.blob.len(),
    decreases ops.len(),
{
    if ops.len() > 0 {
        lemma_growth_monotonic(apply_op(m, ops[0]), ops.drop_first());
    }
}

} // verus!

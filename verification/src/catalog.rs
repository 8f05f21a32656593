//! The catalog: a directory from keys to locations in the blob log.
//!
//! The directory is held as a sequence of key/location entries with
//! pairwise distinct keys.  The spec functions below give the meaning
//! of lookup, insertion and removal over that sequence; the executable
//! [`Catalog`] is proved against them.

use vstd::pervasive::VecAdditionalExecFns;
use vstd::prelude::*;

use crate::index::Index;

verus! {

/// No two entries share a key.
pub open spec fn unique_keys(s: Seq<(Seq<char>, Index)>) -> bool {
    forall|i: int, j: int| 0 <= i < j < s.len() ==> s[i].0 != s[j].0
}

/// The location `k` maps to, scanning the entries front to back.
pub open spec fn find_loc(s: Seq<(Seq<char>, Index)>, k: Seq<char>) -> Option<Index>
    decreases s.len(),
{
    if s.len() == 0 {
        None
    } else if s[0].0 == k {
        Some(s[0].1)
    } else {
        find_loc(s.drop_first(), k)
    }
}

/// The entries after mapping `k` to `loc`: the first entry for `k` is
/// replaced in place, or a fresh entry is appended at the end.
pub open spec fn insert_loc(s: Seq<(Seq<char>, Index)>, k: Seq<char>, loc: Index) -> Seq<
    (Seq<char>, Index),
>
    decreases s.len(),
{
    if s.len() == 0 {
        seq![(k, loc)]
    } else if s[0].0 == k {
        seq![(k, loc)] + s.drop_first()
    } else {
        seq![s[0]] + insert_loc(s.drop_first(), k, loc)
    }
}

/// The entries after dropping the first entry for `k`.
pub open spec fn remove_loc(s: Seq<(Seq<char>, Index)>, k: Seq<char>) -> Seq<(Seq<char>, Index)>
    decreases s.len(),
{
    if s.len() == 0 {
        s
    } else if s[0].0 == k {
        s.drop_first()
    } else {
        seq![s[0]] + remove_loc(s.drop_first(), k)
    }
}

/// How many entries carry the key `k`.
pub open spec fn count_key(s: Seq<(Seq<char>, Index)>, k: Seq<char>) -> nat
    decreases s.len(),
{
    if s.len() == 0 {
        0
    } else {
        (if s[0].0 == k {
            1nat
        } else {
            0nat
        }) + count_key(s.drop_first(), k)
    }
}

/// A match at position `i`, with no match before it, settles the lookup.
pub proof fn lemma_find_loc_at(s: Seq<(Seq<char>, Index)>, k: Seq<char>, i: int)
    requires
        0 <= i < s.len(),
        s[i].0 == k,
        forall|j: int| 0 <= j < i ==> s[j].0 != k,
    ensures
        find_loc(s, k) == Some(s[i].1),
    decreases i,
{
    if i == 0 {
    } else {
        assert(s.drop_first()[i - 1] == s[i]);
        assert(forall|j: int| 0 <= j < i - 1 ==> s.drop_first()[j] == s[j + 1]);
        lemma_find_loc_at(s.drop_first(), k, i - 1);
    }
}

/// When no entry carries `k`, the lookup misses.
pub proof fn lemma_find_loc_none(s: Seq<(Seq<char>, Index)>, k: Seq<char>)
    requires
        forall|j: int| 0 <= j < s.len() ==> s[j].0 != k,
    ensures
        find_loc(s, k) == None::<Index>,
    decreases s.len(),
{
    if s.len() > 0 {
        assert(forall|j: int| 0 <= j < s.drop_first().len() ==> s.drop_first()[j] == s[j + 1]);
        lemma_find_loc_none(s.drop_first(), k);
    }
}

/// Conversely, a miss means no position carries `k`.
pub proof fn lemma_find_none_no_match(s: Seq<(Seq<char>, Index)>, k: Seq<char>)
    requires
        find_loc(s, k) is None,
    ensures
        forall|j: int| 0 <= j < s.len() ==> s[j].0 != k,
    decreases s.len(),
{
    if s.len() > 0 {
        lemma_find_none_no_match(s.drop_first(), k);
        assert forall|j: int| 0 <= j < s.len() implies s[j].0 != k by {
            if j > 0 {
                assert(s.drop_first()[j - 1] == s[j]);
            }
        }
    }
}

/// Replacing the first match in place is what `insert_loc` does.
pub proof fn lemma_insert_loc_at(s: Seq<(Seq<char>, Index)>, k: Seq<char>, loc: Index, i: int)
    requires
        0 <= i < s.len(),
        s[i].0 == k,
        forall|j: int| 0 <= j < i ==> s[j].0 != k,
    ensures
        insert_loc(s, k, loc) == s.update(i, (k, loc)),
    decreases i,
{
    if i == 0 {
        assert(insert_loc(s, k, loc) =~= s.update(0, (k, loc)));
    } else {
        assert(s.drop_first()[i - 1] == s[i]);
        assert(forall|j: int| 0 <= j < i - 1 ==> s.drop_first()[j] == s[j + 1]);
        lemma_insert_loc_at(s.drop_first(), k, loc, i - 1);
        assert(seq![s[0]] + s.drop_first().update(i - 1, (k, loc)) =~= s.update(i, (k, loc)));
    }
}

/// With no match anywhere, `insert_loc` appends a fresh entry.
pub proof fn lemma_insert_loc_append(s: Seq<(Seq<char>, Index)>, k: Seq<char>, loc: Index)
    requires
        forall|j: int| 0 <= j < s.len() ==> s[j].0 != k,
    ensures
        insert_loc(s, k, loc) == s.push((k, loc)),
    decreases s.len(),
{
    if s.len() == 0 {
        assert(insert_loc(s, k, loc) =~= s.push((k, loc)));
    } else {
        assert(forall|j: int| 0 <= j < s.drop_first().len() ==> s.drop_first()[j] == s[j + 1]);
        lemma_insert_loc_append(s.drop_first(), k, loc);
        assert(seq![s[0]] + s.drop_first().push((k, loc)) =~= s.push((k, loc)));
    }
}

/// Dropping the first match at position `i` is what `remove_loc` does.
pub proof fn lemma_remove_loc_at(s: Seq<(Seq<char>, Index)>, k: Seq<char>, i: int)
    requires
        0 <= i < s.len(),
        s[i].0 == k,
        forall|j: int| 0 <= j < i ==> s[j].0 != k,
    ensures
        remove_loc(s, k) == s.remove(i),
    decreases i,
{
    if i == 0 {
        assert(remove_loc(s, k) =~= s.remove(0));
    } else {
        assert(s.drop_first()[i - 1] == s[i]);
        assert(forall|j: int| 0 <= j < i - 1 ==> s.drop_first()[j] == s[j + 1]);
        lemma_remove_loc_at(s.drop_first(), k, i - 1);
        assert(seq![s[0]] + s.drop_first().remove(i - 1) =~= s.remove(i));
    }
}

/// With no match anywhere, `remove_loc` leaves the entries alone.
pub proof fn lemma_remove_loc_none(s: Seq<(Seq<char>, Index)>, k: Seq<char>)
    requires
        forall|j: int| 0 <= j < s.len() ==> s[j].0 != k,
    ensures
        remove_loc(s, k) == s,
    decreases s.len(),
{
    if s.len() > 0 {
        assert(forall|j: int| 0 <= j < s.drop_first().len() ==> s.drop_first()[j] == s[j + 1]);
        lemma_remove_loc_none(s.drop_first(), k);
        assert(seq![s[0]] + s.drop_first() =~= s);
    }
}

/// Insertion maps `k` to `loc` and leaves every other key alone.
pub proof fn lemma_find_insert(
    s: Seq<(Seq<char>, Index)>,
    k: Seq<char>,
    loc: Index,
    k2: Seq<char>,
)
    ensures
        find_loc(insert_loc(s, k, loc), k2) == if k2 == k {
            Some(loc)
        } else {
            find_loc(s, k2)
        },
    decreases s.len(),
{
    if s.len() == 0 {
        reveal_with_fuel(find_loc, 2);
        let t = seq![(k, loc)];
        assert(t[0] == (k, loc));
        assert(t.drop_first().len() == 0);
    } else if s[0].0 == k {
        let t = seq![(k, loc)] + s.drop_first();
        assert(t[0] == (k, loc));
        assert(t.drop_first() =~= s.drop_first());
    } else {
        lemma_find_insert(s.drop_first(), k, loc, k2);
        let t = seq![s[0]] + insert_loc(s.drop_first(), k, loc);
        assert(t[0] == s[0]);
        assert(t.drop_first() =~= insert_loc(s.drop_first(), k, loc));
    }
}

/// With distinct keys, removal makes `k` miss.
pub proof fn lemma_find_remove_same(s: Seq<(Seq<char>, Index)>, k: Seq<char>)
    requires
        unique_keys(s),
    ensures
        find_loc(remove_loc(s, k), k) == None::<Index>,
    decreases s.len(),
{
    if s.len() == 0 {
    } else if s[0].0 == k {
        assert(forall|j: int|
            0 <= j < s.drop_first().len() ==> s.drop_first()[j] == s[j + 1]);
        lemma_find_loc_none(s.drop_first(), k);
    } else {
        assert(forall|j: int|
            0 <= j < s.drop_first().len() ==> s.drop_first()[j] == s[j + 1]);
        lemma_find_remove_same(s.drop_first(), k);
        assert((seq![s[0]] + remove_loc(s.drop_first(), k)).drop_first() =~= remove_loc(
            s.drop_first(),
            k,
        ));
    }
}

/// Insertion keeps the keys pairwise distinct.
pub proof fn lemma_insert_unique(s: Seq<(Seq<char>, Index)>, k: Seq<char>, loc: Index)
    requires
        unique_keys(s),
    ensures
        unique_keys(insert_loc(s, k, loc)),
{
    if exists|i: int| 0 <= i < s.len() && s[i].0 == k {
        let i = choose|i: int| 0 <= i < s.len() && s[i].0 == k && forall|j: int|
            0 <= j < i ==> s[j].0 != k;
        lemma_first_match_exists(s, k);
        lemma_insert_loc_at(s, k, loc, i);
        let t = s.update(i, (k, loc));
        assert forall|a: int, b: int| 0 <= a < b < t.len() implies t[a].0 != t[b].0 by {
            assert(s[a].0 != s[b].0);
        }
    } else {
        assert(forall|j: int| 0 <= j < s.len() ==> s[j].0 != k);
        lemma_insert_loc_append(s, k, loc);
        let t = s.push((k, loc));
        assert forall|a: int, b: int| 0 <= a < b < t.len() implies t[a].0 != t[b].0 by {
            if b < s.len() {
                assert(s[a].0 != s[b].0);
            } else {
                assert(t[b].0 == k);
                assert(s[a].0 != k);
            }
        }
    }
}

/// Where some entry carries `k`, a first such entry exists.
pub proof fn lemma_first_match_exists(s: Seq<(Seq<char>, Index)>, k: Seq<char>)
    requires
        exists|i: int| 0 <= i < s.len() && s[i].0 == k,
    ensures
        exists|i: int|
            0 <= i < s.len() && s[i].0 == k && (forall|j: int| 0 <= j < i ==> s[j].0 != k),
    decreases s.len(),
{
    if s[0].0 == k {
        assert(0 <= 0 < s.len() && s[0].0 == k && (forall|j: int| 0 <= j < 0 ==> s[j].0 != k));
    } else {
        let w = choose|i: int| 0 <= i < s.len() && s[i].0 == k;
        assert(s.drop_first()[w - 1] == s[w]);
        lemma_first_match_exists(s.drop_first(), k);
        let i = choose|i: int|
            0 <= i < s.drop_first().len() && s.drop_first()[i].0 == k && (forall|j: int|
                0 <= j < i ==> s.drop_first()[j].0 != k);
        assert(s.drop_first()[i] == s[i + 1]);
        assert forall|j: int| 0 <= j < i + 1 implies s[j].0 != k by {
            if j > 0 {
                assert(s.drop_first()[j - 1] == s[j]);
            }
        }
        assert(0 <= i + 1 < s.len() && s[i + 1].0 == k && (forall|j: int|
            0 <= j < i + 1 ==> s[j].0 != k));
    }
}

/// Removal keeps the keys pairwise distinct.
pub proof fn lemma_remove_unique(s: Seq<(Seq<char>, Index)>, k: Seq<char>)
    requires
        unique_keys(s),
    ensures
        unique_keys(remove_loc(s, k)),
{
    if exists|i: int| 0 <= i < s.len() && s[i].0 == k {
        lemma_first_match_exists(s, k);
        let i = choose|i: int|
            0 <= i < s.len() && s[i].0 == k && (forall|j: int| 0 <= j < i ==> s[j].0 != k);
        lemma_remove_loc_at(s, k, i);
        let t = s.remove(i);
        assert forall|a: int, b: int| 0 <= a < b < t.len() implies t[a].0 != t[b].0 by {
            let a0 = if a < i { a } else { a + 1 };
            let b0 = if b < i { b } else { b + 1 };
            assert(t[a] == s[a0]);
            assert(t[b] == s[b0]);
            assert(s[a0].0 != s[b0].0);
        }
    } else {
        assert(forall|j: int| 0 <= j < s.len() ==> s[j].0 != k);
        lemma_remove_loc_none(s, k);
    }
}

/// With distinct keys, insertion leaves exactly one entry for `k`.
pub proof fn lemma_count_insert(s: Seq<(Seq<char>, Index)>, k: Seq<char>, loc: Index)
    requires
        unique_keys(s),
    ensures
        count_key(insert_loc(s, k, loc), k) == 1,
{
    if exists|i: int| 0 <= i < s.len() && s[i].0 == k {
        lemma_first_match_exists(s, k);
        let i = choose|i: int|
            0 <= i < s.len() && s[i].0 == k && (forall|j: int| 0 <= j < i ==> s[j].0 != k);
        lemma_insert_loc_at(s, k, loc, i);
        let t = s.update(i, (k, loc));
        assert forall|j: int| 0 <= j < t.len() && j != i implies t[j].0 != k by {
            assert(s[j].0 != s[i].0 || j == i);
        }
        lemma_count_single(t, k, i);
    } else {
        assert(forall|j: int| 0 <= j < s.len() ==> s[j].0 != k);
        lemma_insert_loc_append(s, k, loc);
        let t = s.push((k, loc));
        lemma_count_single(t, k, s.len() as int);
    }
}

/// Counting entries for `k` where only position `i` carries it gives one.
pub proof fn lemma_count_single(s: Seq<(Seq<char>, Index)>, k: Seq<char>, i: int)
    requires
        0 <= i < s.len(),
        s[i].0 == k,
        forall|j: int| 0 <= j < s.len() && j != i ==> s[j].0 != k,
    ensures
        count_key(s, k) == 1,
    decreases s.len(),
{
    assert(forall|j: int| 0 <= j < s.drop_first().len() ==> s.drop_first()[j] == s[j + 1]);
    if i == 0 {
        lemma_count_none(s.drop_first(), k);
    } else {
        lemma_count_single(s.drop_first(), k, i - 1);
    }
}

/// The entries as plain key/range values, the shape the catalog
/// document encodes.
pub open spec fn plain_entries(s: Seq<(Seq<char>, Index)>) -> Seq<(Seq<char>, (u64, u64))> {
    s.map_values(|e: (Seq<char>, Index)| (e.0, (e.1.offset, e.1.length)))
}

/// The view of decoded key/range pairs.
pub open spec fn pairs_view(s: Seq<(String, (u64, u64))>) -> Seq<(Seq<char>, (u64, u64))> {
    s.map_values(|p: (String, (u64, u64))| (p.0@, p.1))
}

/// The directory that inserting each decoded pair in turn builds up,
/// a later pair silently superseding an earlier one with its key.
pub open spec fn insert_all(
    acc: Seq<(Seq<char>, Index)>,
    s: Seq<(Seq<char>, (u64, u64))>,
) -> Seq<(Seq<char>, Index)>
    decreases s.len(),
{
    if s.len() == 0 {
        acc
    } else {
        insert_all(
            insert_loc(acc, s[0].0, Index { offset: s[0].1.0, length: s[0].1.1 }),
            s.drop_first(),
        )
    }
}

/// Folding over one more pair inserts it last.
pub proof fn lemma_insert_all_push(
    acc: Seq<(Seq<char>, Index)>,
    s: Seq<(Seq<char>, (u64, u64))>,
    p: (Seq<char>, (u64, u64)),
)
    ensures
        insert_all(acc, s.push(p)) == insert_loc(
            insert_all(acc, s),
            p.0,
            Index { offset: p.1.0, length: p.1.1 },
        ),
    decreases s.len(),
{
    if s.len() == 0 {
        reveal_with_fuel(insert_all, 2);
        let t = s.push(p);
        assert(t[0] == p);
        assert(t.drop_first().len() == 0);
    } else {
        assert(s.push(p)[0] == s[0]);
        assert(s.push(p).drop_first() =~= s.drop_first().push(p));
        let loc = Index { offset: s[0].1.0, length: s[0].1.1 };
        lemma_insert_all_push(insert_loc(acc, s[0].0, loc), s.drop_first(), p);
    }
}

/// Refolding the plain form of a directory with distinct keys, onto a
/// prefix it is disjoint from, appends it back exactly.
pub proof fn lemma_insert_all_restore(acc: Seq<(Seq<char>, Index)>, s: Seq<(Seq<char>, Index)>)
    requires
        unique_keys(acc + s),
    ensures
        insert_all(acc, plain_entries(s)) == acc + s,
    decreases s.len(),
{
    if s.len() == 0 {
        assert(plain_entries(s).len() == 0);
        assert(acc + s =~= acc);
    } else {
        let k = s[0].0;
        let loc = s[0].1;
        assert(plain_entries(s)[0] == (k, (loc.offset, loc.length)));
        assert(Index { offset: loc.offset, length: loc.length } == loc);
        assert forall|j: int| 0 <= j < acc.len() implies acc[j].0 != k by {
            assert((acc + s)[j] == acc[j]);
            assert((acc + s)[acc.len() as int] == s[0]);
        }
        lemma_insert_loc_append(acc, k, loc);
        assert(plain_entries(s).drop_first() =~= plain_entries(s.drop_first()));
        assert(acc.push(s[0]) + s.drop_first() =~= acc + s);
        lemma_insert_all_restore(acc.push(s[0]), s.drop_first());
    }
}

/// The key/location directory, held as entries with pairwise distinct
/// keys.  Insertion overwrites a prior mapping for the same key
/// silently; removal hands the freed location back to the caller.
pub struct Catalog {
    entries: Vec<(String, Index)>,
}

impl View for Catalog {
    type V = Seq<(Seq<char>, Index)>;

    closed spec fn view(&self) -> Seq<(Seq<char>, Index)> {
        self.entries@.map_values(|p: (String, Index)| (p.0@, p.1))
    }
}

impl Catalog {
    /// The keys are pairwise distinct.
    pub open spec fn wf(&self) -> bool {
        unique_keys(self@)
    }

    /// A fresh, empty directory.
    pub fn new() -> (r: Catalog)
        ensures
            r.wf(),
            r@ == Seq::<(Seq<char>, Index)>::empty(),
    {
        let r = Catalog { entries: Vec::new() };
        proof {
            assert(r@ =~= Seq::<(Seq<char>, Index)>::empty());
        }
        r
    }

    /// How many keys the directory holds.
    pub fn len(&self) -> (r: usize)
        ensures
            r == self@.len(),
    {
        self.entries.len()
    }

    /// The position of the first entry for `key`, if any.
    fn find_index(&self, key: &String) -> (r: Option<usize>)
        ensures
            match r {
                Some(i) => i < self@.len() && self@[i as int].0 == key@ && (forall|j: int|
                    0 <= j < i ==> self@[j].0 != key@),
                None => forall|j: int| 0 <= j < self@.len() ==> self@[j].0 != key@,
            },
    {
        let mut i: usize = 0;
        while i < self.entries.len()
            invariant
                i <= self.entries.len(),
                forall|j: int| 0 <= j < i ==> self@[j].0 != key@,
            decreases self.entries.len() - i,
        {
            if self.entries[i].0 == *key {
                assert(self@[i as int].0 == key@);
                return Some(i);
            }
            assert(self@[i as int].0 != key@);
            i = i + 1;
        }
        None
    }

    /// The location `key` maps to, or nothing.
    pub fn lookup(&self, key: &String) -> (r: Option<Index>)
        ensures
            r == find_loc(self@, key@),
    {
        match self.find_index(key) {
            Some(i) => {
                proof {
                    lemma_find_loc_at(self@, key@, i as int);
                }
                Some(self.entries[i].1)
            },
            None => {
                proof {
                    lemma_find_loc_none(self@, key@);
                }
                None
            },
        }
    }

    /// Map `key` to `loc`, silently superseding any prior mapping.
    pub fn insert(&mut self, key: String, loc: Index)
        requires
            old(self).wf(),
        ensures
            final(self).wf(),
            final(self)@ == insert_loc(old(self)@, key@, loc),
    {
        proof {
            lemma_insert_unique(self@, key@, loc);
        }
        match self.find_index(&key) {
            Some(i) => {
                proof {
                    lemma_insert_loc_at(self@, key@, loc, i as int);
                }
                self.entries.set(i, (key, loc));
                assert(self@ =~= insert_loc(old(self)@, key@, loc));
            },
            None => {
                proof {
                    lemma_find_loc_none(self@, key@);
                    lemma_insert_loc_append(self@, key@, loc);
                }
                self.entries.push((key, loc));
                assert(self@ =~= insert_loc(old(self)@, key@, loc));
            },
        }
    }

    /// Drop the mapping for `key`, handing back the freed location.
    pub fn remove(&mut self, key: &String) -> (r: Option<Index>)
        requires
            old(self).wf(),
        ensures
            final(self).wf(),
            r == find_loc(old(self)@, key@),
            final(self)@ == remove_loc(old(self)@, key@),
    {
        proof {
            lemma_remove_unique(self@, key@);
        }
        match self.find_index(key) {
            Some(i) => {
                proof {
                    lemma_find_loc_at(self@, key@, i as int);
                    lemma_remove_loc_at(self@, key@, i as int);
                }
                let (_, loc) = self.entries.remove(i);
                assert(self@ =~= remove_loc(old(self)@, key@));
                Some(loc)
            },
            None => {
                proof {
                    lemma_find_loc_none(self@, key@);
                    lemma_remove_loc_none(self@, key@);
                }
                None
            },
        }
    }

    /// The entries as plain key/range values, the shape the catalog
    /// document encodes.
    pub fn to_pairs(&self) -> (r: Vec<(String, (u64, u64))>)
        ensures
            pairs_view(r@) == plain_entries(self@),
    {
        let mut out: Vec<(String, (u64, u64))> = Vec::new();
        let mut i: usize = 0;
        while i < self.entries.len()
            invariant
                i <= self.entries.len(),
                pairs_view(out@) == plain_entries(self@.take(i as int)),
            decreases self.entries.len() - i,
        {
            let key = self.entries[i].0.clone();
            let loc = self.entries[i].1;
            let ghost prev = out@;
            out.push((key, (loc.offset, loc.length)));
            proof {
                assert(pairs_view(prev).len() == prev.len());
                assert(plain_entries(self@.take(i as int)).len() == i as int);
                assert(prev.len() == i as int);
                assert(out@ == prev.push((key, (loc.offset, loc.length))));
                assert(self@[i as int] == (self.entries@[i as int].0@, self.entries@[i as int].1));
                assert forall|j: int|
                    0 <= j < pairs_view(out@).len() implies pairs_view(out@)[j] == plain_entries(
                    self@.take(i as int + 1),
                )[j] by {
                    if j < i {
                        assert(out@[j] == prev[j]);
                        assert(pairs_view(prev)[j] == plain_entries(self@.take(i as int))[j]);
                        assert(self@.take(i as int)[j] == self@.take(i as int + 1)[j]);
                    } else {
                        assert(out@[j] == (key, (loc.offset, loc.length)));
                        assert(self@.take(i as int + 1)[j] == self@[i as int]);
                    }
                }
                assert(pairs_view(out@) =~= plain_entries(self@.take(i as int + 1)));
            }
            i = i + 1;
        }
        proof {
            assert(self@.take(self.entries.len() as int) =~= self@);
        }
        out
    }

    /// A directory rebuilt by inserting each decoded pair in turn, a
    /// later pair silently superseding an earlier one with its key.
    pub fn from_pairs(pairs: &Vec<(String, (u64, u64))>) -> (r: Catalog)
        ensures
            r.wf(),
            r@ == insert_all(Seq::<(Seq<char>, Index)>::empty(), pairs_view(pairs@)),
    {
        let mut cat = Catalog::new();
        let mut i: usize = 0;
        while i < pairs.len()
            invariant
                i <= pairs.len(),
                cat.wf(),
                cat@ == insert_all(
                    Seq::<(Seq<char>, Index)>::empty(),
                    pairs_view(pairs@.take(i as int)),
                ),
            decreases pairs.len() - i,
        {
            let key = pairs[i].0.clone();
            let loc = Index { offset: pairs[i].1.0, length: pairs[i].1.1 };
            proof {
                assert(pairs_view(pairs@.take(i as int + 1)) =~= pairs_view(
                    pairs@.take(i as int),
                ).push((pairs@[i as int].0@, pairs@[i as int].1)));
                lemma_insert_all_push(
                    Seq::<(Seq<char>, Index)>::empty(),
                    pairs_view(pairs@.take(i as int)),
                    (pairs@[i as int].0@, pairs@[i as int].1),
                );
            }
            cat.insert(key, loc);
            i = i + 1;
        }
        proof {
            assert(pairs@.take(pairs.len() as int) =~= pairs@);
        }
        cat
    }
}

/// Counting entries for a key nothing carries gives zero.
pub proof fn lemma_count_none(s: Seq<(Seq<char>, Index)>, k: Seq<char>)
    requires
        forall|j: int| 0 <= j < s.len() ==> s[j].0 != k,
    ensures
        count_key(s, k) == 0,
    decreases s.len(),
{
    if s.len() > 0 {
        assert(forall|j: int| 0 <= j < s.drop_first().len() ==> s.drop_first()[j] == s[j + 1]);
        lemma_count_none(s.drop_first(), k);
    }
}

} // verus!

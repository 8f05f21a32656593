//! The reclaim list: locations vacated by deleted keys.

use vstd::prelude::*;

use crate::index::Index;

verus! {

/// The locations of a reclaim list as plain offset/length pairs, the
/// shape its metadata document encodes.
pub open spec fn pairs_of_locs(s: Seq<Index>) -> Seq<(u64, u64)> {
    s.map_values(|x: Index| (x.offset, x.length))
}

/// Locations rebuilt from plain offset/length pairs.
pub open spec fn locs_of_pairs(s: Seq<(u64, u64)>) -> Seq<Index> {
    s.map_values(|p: (u64, u64)| Index { offset: p.0, length: p.1 })
}

/// Turning locations into pairs and back restores them exactly.
pub proof fn lemma_pairs_roundtrip(s: Seq<Index>)
    ensures
        locs_of_pairs(pairs_of_locs(s)) == s,
{
    assert(locs_of_pairs(pairs_of_locs(s)) =~= s);
}

/// The ordered list of locations vacated by deleted keys.  Entries are
/// appended and never consumed: `store` always appends fresh bytes to
/// the blob log instead of recycling a vacated range, so the list only
/// grows until an external compaction pass exists.
pub struct ReclaimList {
    items: Vec<Index>,
}

impl View for ReclaimList {
    type V = Seq<Index>;

    closed spec fn view(&self) -> Seq<Index> {
        self.items@
    }
}

impl ReclaimList {
    /// A fresh, empty list.
    pub fn new() -> (r: ReclaimList)
        ensures
            r@ == Seq::<Index>::empty(),
    {
        let r = ReclaimList { items: Vec::new() };
        proof {
            assert(r@ =~= Seq::<Index>::empty());
        }
        r
    }

    /// How many vacated locations the list holds.
    pub fn len(&self) -> (r: usize)
        ensures
            r == self@.len(),
    {
        self.items.len()
    }

    /// Append a vacated location at the end of the list.
    pub fn record(&mut self, loc: Index)
        ensures
            final(self)@ == old(self)@.push(loc),
    {
        self.items.push(loc);
    }

    /// The list as plain pairs, the shape its document encodes.
    pub fn to_pairs(&self) -> (r: Vec<(u64, u64)>)
        ensures
            r@ == pairs_of_locs(self@),
    {
        let mut out: Vec<(u64, u64)> = Vec::new();
        let mut i: usize = 0;
        while i < self.items.len()
            invariant
                i <= self.items.len(),
                out@ == pairs_of_locs(self@.take(i as int)),
            decreases self.items.len() - i,
        {
            out.push((self.items[i].offset, self.items[i].length));
            assert(out@ =~= pairs_of_locs(self@.take(i as int + 1)));
            i = i + 1;
        }
        proof {
            assert(self@.take(self.items.len() as int) =~= self@);
        }
        out
    }

    /// A list rebuilt from the plain pairs of its document.
    pub fn from_pairs(pairs: &Vec<(u64, u64)>) -> (r: ReclaimList)
        ensures
            r@ == locs_of_pairs(pairs@),
    {
        let mut items: Vec<Index> = Vec::new();
        let mut i: usize = 0;
        while i < pairs.len()
            invariant
                i <= pairs.len(),
                items@ == locs_of_pairs(pairs@.take(i as int)),
            decreases pairs.len() - i,
        {
            items.push(Index { offset: pairs[i].0, length: pairs[i].1 });
            assert(items@ =~= locs_of_pairs(pairs@.take(i as int + 1)));
            i = i + 1;
        }
        proof {
            assert(pairs@.take(pairs.len() as int) =~= pairs@);
        }
        ReclaimList { items }
    }
}

} // verus!

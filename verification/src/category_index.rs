//! A bounding-box spatial index over one category's stable identifiers.
//!
//! `query` returns every stored identifier whose box intersects the given
//! rectangle (boundary touching counts), with no duplicates, no false
//! positives and no false negatives.

use vstd::prelude::*;

use crate::assoc::{
    assoc_keys, assoc_map, lemma_assoc_map_len, lemma_assoc_map_membership,
    lemma_assoc_map_push, lemma_assoc_map_remove, lemma_assoc_map_values,
};
use crate::geometry::{bbox_intersects, bbox_wf, BBox};

verus! {

/// The identifiers a query over `m` with rectangle `r` must return.
pub open spec fn query_set(m: Map<u64, BBox>, r: BBox) -> Set<u64> {
    Set::new(|id: u64| m.contains_key(id) && bbox_intersects(m[id], r))
}

/// A spatial index over (identifier, bounding box) entries of one category.
pub struct CategoryIndex {
    bounds: BBox,
    entries: Vec<(u64, BBox)>,
}

impl View for CategoryIndex {
    type V = Map<u64, BBox>;

    closed spec fn view(&self) -> Map<u64, BBox> {
        assoc_map(self.entries@)
    }
}

impl CategoryIndex {
    /// Identifiers are stored at most once and every stored box is well
    /// formed.
    pub closed spec fn wf(&self) -> bool {
        &&& assoc_keys(self.entries@).no_duplicates()
        &&& forall|i: int|
            0 <= i < self.entries@.len() ==> bbox_wf((#[trigger] self.entries@[i]).1)
        &&& bbox_wf(self.bounds)
    }

    /// The overall scene rectangle the index was built for.
    pub closed spec fn spec_bounds(&self) -> BBox {
        self.bounds
    }

    /// One-time bulk load; accepts zero entries.
    pub fn build(bounds: BBox, entries: Vec<(u64, BBox)>) -> (r: CategoryIndex)
        requires
            bbox_wf(bounds),
            assoc_keys(entries@).no_duplicates(),
            forall|i: int| 0 <= i < entries@.len() ==> bbox_wf((#[trigger] entries@[i]).1),
        ensures
            r.wf(),
            r@ == assoc_map(entries@),
            r.spec_bounds() == bounds,
            r@.len() == entries@.len(),
    {
        proof {
            lemma_assoc_map_len(entries@);
        }
        CategoryIndex { bounds, entries }
    }

    /// The number of stored identifiers.
    pub fn len(&self) -> (r: usize)
        requires
            self.wf(),
        ensures
            r == self@.len(),
    {
        proof {
            lemma_assoc_map_len(self.entries@);
        }
        self.entries.len()
    }

    /// Adds one entry. The caller must first have removed any entry with the
    /// same identifier: the index does not replace on its own.
    pub fn insert(&mut self, id: u64, bbox: BBox)
        requires
            old(self).wf(),
            !old(self)@.contains_key(id),
            bbox_wf(bbox),
        ensures
            final(self).wf(),
            final(self)@ == old(self)@.insert(id, bbox),
            final(self).spec_bounds() == old(self).spec_bounds(),
    {
        proof {
            lemma_assoc_map_membership(self.entries@);
            lemma_assoc_map_push(self.entries@, (id, bbox));
            let keys = assoc_keys(self.entries@);
            let pushed = self.entries@.push((id, bbox));
            assert(assoc_keys(pushed) =~= keys.push(id));
            assert(!keys.contains(id));
            assert(keys.push(id).no_duplicates()) by {
                assert forall|p: int, q: int|
                    0 <= p < keys.push(id).len() && 0 <= q < keys.push(id).len() && p
                        != q implies keys.push(id)[p] != keys.push(id)[q] by {
                    if p < keys.len() && q == keys.len() {
                        assert(keys[p] != id);
                    }
                    if q < keys.len() && p == keys.len() {
                        assert(keys[q] != id);
                    }
                }
            }
            assert forall|i: int| 0 <= i < pushed.len() implies bbox_wf(
                (#[trigger] pushed[i]).1,
            ) by {
                if i < self.entries@.len() {
                    assert(pushed[i] == self.entries@[i]);
                }
            }
        }
        self.entries.push((id, bbox));
    }

    /// Removes the entry with this identifier, returning its box, or `None`
    /// when the identifier is absent.
    pub fn remove(&mut self, id: u64) -> (r: Option<BBox>)
        requires
            old(self).wf(),
        ensures
            final(self).wf(),
            final(self)@ == old(self)@.remove(id),
            final(self).spec_bounds() == old(self).spec_bounds(),
            r == if old(self)@.contains_key(id) {
                Some(old(self)@[id])
            } else {
                None::<BBox>
            },
    {
        proof {
            lemma_assoc_map_membership(self.entries@);
            lemma_assoc_map_values(self.entries@);
        }
        let mut i: usize = 0;
        while i < self.entries.len()
            invariant
                0 <= i <= self.entries@.len(),
                forall|j: int| 0 <= j < i ==> (#[trigger] self.entries@[j]).0 != id,
                self.wf(),
                *self == *old(self),
            decreases self.entries@.len() - i,
        {
            if self.entries[i].0 == id {
                proof {
                    lemma_assoc_map_membership(self.entries@);
                    lemma_assoc_map_values(self.entries@);
                    lemma_assoc_map_remove(self.entries@, i as int);
                    assert(assoc_keys(self.entries@)[i as int] == id);
                    assert(self@.contains_key(id));
                    assert(self@[id] == self.entries@[i as int].1);
                    let removed = self.entries@.remove(i as int);
                    assert forall|j: int| 0 <= j < removed.len() implies bbox_wf(
                        (#[trigger] removed[j]).1,
                    ) by {
                        if j < i {
                            assert(removed[j] == self.entries@[j]);
                        } else {
                            assert(removed[j] == self.entries@[j + 1]);
                        }
                    }
                }
                let e = self.entries.remove(i);
                return Some(e.1);
            }
            i += 1;
        }
        proof {
            assert(!assoc_keys(self.entries@).contains(id)) by {
                if assoc_keys(self.entries@).contains(id) {
                    let j = choose|j: int|
                        0 <= j < assoc_keys(self.entries@).len() && assoc_keys(self.entries@)[j]
                            == id;
                    assert(self.entries@[j].0 == id);
                }
            }
            assert(self@.remove(id) =~= self@);
        }
        None
    }

    /// Every identifier whose stored box intersects `rect`, each exactly
    /// once, in unspecified order.
    pub fn query(&self, rect: &BBox) -> (r: Vec<u64>)
        requires
            self.wf(),
        ensures
            r@.no_duplicates(),
            r@.to_set() == query_set(self@, *rect),
    {
        proof {
            lemma_assoc_map_membership(self.entries@);
            lemma_assoc_map_values(self.entries@);
        }
        let mut r: Vec<u64> = Vec::new();
        let mut i: usize = 0;
        while i < self.entries.len()
            invariant
                0 <= i <= self.entries@.len(),
                self.wf(),
                r@.no_duplicates(),
                forall|id: u64|
                    r@.contains(id) <==> exists|j: int|
                        0 <= j < i && (#[trigger] self.entries@[j]).0 == id && bbox_intersects(
                            self.entries@[j].1,
                            *rect,
                        ),
            decreases self.entries@.len() - i,
        {
            let ghost r_old = r@;
            let e = self.entries[i];
            if e.1.intersects(rect) {
                proof {
                    assert(!r@.contains(e.0)) by {
                        if r@.contains(e.0) {
                            let j = choose|j: int|
                                0 <= j < i && (#[trigger] self.entries@[j]).0 == e.0
                                    && bbox_intersects(self.entries@[j].1, *rect);
                            assert(assoc_keys(self.entries@)[j] == e.0);
                            assert(assoc_keys(self.entries@)[i as int] == e.0);
                        }
                    }
                }
                r.push(e.0);
            }
            proof {
                assert forall|id: u64| #[trigger] r@.contains(id) implies exists|j: int|
                    0 <= j < i + 1 && (#[trigger] self.entries@[j]).0 == id && bbox_intersects(
                        self.entries@[j].1,
                        *rect,
                    ) by {
                    if r_old.contains(id) {
                        let j = choose|j: int|
                            0 <= j < i && (#[trigger] self.entries@[j]).0 == id
                                && bbox_intersects(self.entries@[j].1, *rect);
                        assert(0 <= j < i + 1 && self.entries@[j].0 == id && bbox_intersects(
                            self.entries@[j].1,
                            *rect,
                        ));
                    } else {
                        assert(r@ == r_old.push(e.0));
                        let k = choose|k: int| 0 <= k < r@.len() && r@[k] == id;
                        assert(id == e.0);
                        assert(0 <= i < i + 1 && self.entries@[i as int].0 == id
                            && bbox_intersects(self.entries@[i as int].1, *rect));
                    }
                }
                assert forall|id: u64|
                    (exists|j: int|
                        0 <= j < i + 1 && (#[trigger] self.entries@[j]).0 == id
                            && bbox_intersects(self.entries@[j].1, *rect)) implies r@.contains(
                    id,
                ) by {
                    let j = choose|j: int|
                        0 <= j < i + 1 && (#[trigger] self.entries@[j]).0 == id
                            && bbox_intersects(self.entries@[j].1, *rect);
                    if j < i {
                        assert(r_old.contains(id));
                        let k = choose|k: int| 0 <= k < r_old.len() && r_old[k] == id;
                        assert(r@[k] == id);
                    } else {
                        assert(bbox_intersects(e.1, *rect));
                        assert(r@.last() == e.0);
                    }
                }
            }
            i += 1;
        }
        proof {
            assert(r@.to_set() =~= query_set(self@, *rect)) by {
                assert forall|id: u64| r@.contains(id) implies query_set(self@, *rect).contains(
                    id,
                ) by {
                    let j = choose|j: int|
                        0 <= j < self.entries@.len() && (#[trigger] self.entries@[j]).0 == id
                            && bbox_intersects(self.entries@[j].1, *rect);
                    assert(self@[id] == self.entries@[j].1);
                }
                assert forall|id: u64| query_set(self@, *rect).contains(id) implies r@.contains(
                    id,
                ) by {
                    assert(assoc_keys(self.entries@).contains(id));
                    let j = choose|j: int|
                        0 <= j < assoc_keys(self.entries@).len() && assoc_keys(self.entries@)[j]
                            == id;
                    assert(self.entries@[j].0 == id);
                    assert(self@[id] == self.entries@[j].1);
                }
            }
        }
        r
    }
}

/// Removing an identifier and immediately re-inserting it with the same box
/// restores every query result set.
pub proof fn lemma_remove_insert_round_trip(m: Map<u64, BBox>, id: u64, b: BBox, r: BBox)
    requires
        m.contains_key(id),
        m[id] == b,
    ensures
        query_set(m.remove(id).insert(id, b), r) == query_set(m, r),
{
    assert(m.remove(id).insert(id, b) =~= m);
}

} // verus!

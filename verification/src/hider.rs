//! The visibility filter: a per-category predicate deciding which
//! identifiers a query may return. Owned by the UI, consumed by the scene
//! index.

use vstd::prelude::*;

verus! {

/// Identifiers the user has hidden, per category.
pub struct Hider {
    pub hidden_lanes: Vec<u64>,
    pub hidden_intersections: Vec<u64>,
    pub hidden_buildings: Vec<u64>,
    pub hidden_extra_shapes: Vec<u64>,
}

/// Whether an identifier list names `id`.
pub fn contains_id(v: &Vec<u64>, id: u64) -> (r: bool)
    ensures
        r == v@.contains(id),
{
    let mut i: usize = 0;
    while i < v.len()
        invariant
            0 <= i <= v@.len(),
            forall|j: int| 0 <= j < i ==> v@[j] != id,
        decreases v@.len() - i,
    {
        if v[i] == id {
            return true;
        }
        i += 1;
    }
    false
}

impl Hider {
    /// A filter that hides nothing.
    pub fn new() -> (r: Hider)
        ensures
            r.hidden_lanes@ == Seq::<u64>::empty(),
            r.hidden_intersections@ == Seq::<u64>::empty(),
            r.hidden_buildings@ == Seq::<u64>::empty(),
            r.hidden_extra_shapes@ == Seq::<u64>::empty(),
    {
        Hider {
            hidden_lanes: Vec::new(),
            hidden_intersections: Vec::new(),
            hidden_buildings: Vec::new(),
            hidden_extra_shapes: Vec::new(),
        }
    }

    pub open spec fn spec_show_l(&self, id: u64) -> bool {
        !self.hidden_lanes@.contains(id)
    }

    pub open spec fn spec_show_i(&self, id: u64) -> bool {
        !self.hidden_intersections@.contains(id)
    }

    pub open spec fn spec_show_b(&self, id: u64) -> bool {
        !self.hidden_buildings@.contains(id)
    }

    pub open spec fn spec_show_es(&self, id: u64) -> bool {
        !self.hidden_extra_shapes@.contains(id)
    }

    pub fn show_l(&self, id: u64) -> (r: bool)
        ensures
            r == self.spec_show_l(id),
    {
        !contains_id(&self.hidden_lanes, id)
    }

    pub fn show_i(&self, id: u64) -> (r: bool)
        ensures
            r == self.spec_show_i(id),
    {
        !contains_id(&self.hidden_intersections, id)
    }

    pub fn show_b(&self, id: u64) -> (r: bool)
        ensures
            r == self.spec_show_b(id),
    {
        !contains_id(&self.hidden_buildings, id)
    }

    pub fn show_es(&self, id: u64) -> (r: bool)
        ensures
            r == self.spec_show_es(id),
    {
        !contains_id(&self.hidden_extra_shapes, id)
    }
}

} // verus!

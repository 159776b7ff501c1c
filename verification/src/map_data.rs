//! Plain-value descriptions of the upstream map entities the scene index
//! consumes. The map model itself is an external collaborator; the scene
//! index reads only these fields of it.

use vstd::prelude::*;

use crate::geometry::{bbox_wf, coord_ok, pt_ok, BBox, Line, Pt, WIDTH_LIMIT};

verus! {

/// Largest number of turns a map may carry (bounds icon stacking offsets).
pub const TURN_CAP: usize = 100_000;

/// Largest number of entities one category may carry.
pub const OBJECT_CAP: usize = 1_000_000;

/// The role of a lane, as assigned by the upstream map model.
#[derive(Clone, Copy, PartialEq, Eq, Structural, Debug)]
pub enum LaneType {
    Driving,
    Parking,
    Sidewalk,
    Biking,
}

/// One lane: a centerline polyline, a drawing width, and the identifiers of
/// the intersections at its two ends. Its stable identifier is its position
/// in the map's lane list.
#[derive(Clone, Debug)]
pub struct LaneIn {
    pub centerline: Vec<Pt>,
    pub width: u64,
    pub lane_type: LaneType,
    pub src_i: u64,
    pub dst_i: u64,
}

/// One turn between lanes. `src_lane` is the position of the lane the turn
/// leaves; `parent` is the intersection the turn is anchored at; the
/// directional angle comes normalized to whole degrees by the upstream
/// geometry.
#[derive(Clone, Copy, PartialEq, Eq, Structural, Debug)]
pub struct TurnIn {
    pub id: u64,
    pub src_lane: u64,
    pub parent: u64,
    pub angle_degrees: u32,
    pub line: Line,
}

/// One intersection: its boundary points and the positions of its incident
/// lanes in the map's lane list.
#[derive(Clone, Debug)]
pub struct IntersectionIn {
    pub points: Vec<Pt>,
    pub incident_lanes: Vec<u64>,
}

/// One building: boundary points, the front-path line from the building to
/// the adjacent sidewalk together with its measured length, that sidewalk's
/// thickness, the source way and its tags, and parking data.
#[derive(Clone, Debug)]
pub struct BuildingIn {
    pub points: Vec<Pt>,
    pub front_path: Line,
    pub front_path_len: u64,
    pub sidewalk_thickness: u64,
    pub osm_way_id: u64,
    pub osm_tags: Vec<(String, String)>,
    pub has_parking: bool,
    pub label_center: Pt,
}

/// One parcel: its boundary points.
#[derive(Clone, Debug)]
pub struct ParcelIn {
    pub points: Vec<Pt>,
}

/// The geometry variant of an annotation shape.
#[derive(Clone, Debug)]
pub enum ExtraShapeGeomIn {
    Point(Pt),
    Points(Vec<Pt>),
}

/// One auxiliary annotation shape with free-form attributes.
#[derive(Clone, Debug)]
pub struct ExtraShapeIn {
    pub geom: ExtraShapeGeomIn,
    pub attributes: Vec<(String, String)>,
}

/// The read-only map input: entity lists per category plus the map-space
/// bounding rectangle computed by the upstream projection.
#[derive(Clone, Debug)]
pub struct MapData {
    pub lanes: Vec<LaneIn>,
    pub intersections: Vec<IntersectionIn>,
    pub turns: Vec<TurnIn>,
    pub buildings: Vec<BuildingIn>,
    pub parcels: Vec<ParcelIn>,
    pub bounds: BBox,
}

pub open spec fn lane_geom_ok(l: LaneIn) -> bool {
    &&& forall|i: int| 0 <= i < l.centerline@.len() ==> pt_ok(#[trigger] l.centerline@[i])
    &&& l.width <= WIDTH_LIMIT
}

pub open spec fn turn_geom_ok(t: TurnIn) -> bool {
    &&& pt_ok(t.line.p1)
    &&& pt_ok(t.line.p2)
    &&& t.angle_degrees < 360
}

pub open spec fn intersection_geom_ok(i: IntersectionIn) -> bool {
    forall|j: int| 0 <= j < i.points@.len() ==> pt_ok(#[trigger] i.points@[j])
}

/// Strict lexicographic order on character sequences, by code point.
pub open spec fn chars_lt(a: Seq<char>, b: Seq<char>) -> bool
    decreases a.len(),
{
    if b.len() == 0 {
        false
    } else if a.len() == 0 {
        true
    } else if a[0] != b[0] {
        (a[0] as u32) < (b[0] as u32)
    } else {
        chars_lt(a.drop_first(), b.drop_first())
    }
}

/// Keys strictly ascending, as iterating a key-to-value map hands them out;
/// this also makes them pairwise distinct.
pub open spec fn keys_sorted(pairs: Seq<(String, String)>) -> bool {
    forall|i: int, j: int|
        0 <= i < j < pairs.len() ==> chars_lt((#[trigger] pairs[i]).0@, (#[trigger] pairs[j]).0@)
}

pub open spec fn building_geom_ok(b: BuildingIn) -> bool {
    &&& forall|i: int| 0 <= i < b.points@.len() ==> pt_ok(#[trigger] b.points@[i])
    &&& pt_ok(b.front_path.p1)
    &&& pt_ok(b.front_path.p2)
    &&& pt_ok(b.label_center)
    &&& b.sidewalk_thickness <= WIDTH_LIMIT
    &&& keys_sorted(b.osm_tags@)
}

pub open spec fn parcel_geom_ok(p: ParcelIn) -> bool {
    forall|i: int| 0 <= i < p.points@.len() ==> pt_ok(#[trigger] p.points@[i])
}

pub open spec fn extra_shape_geom_ok(s: ExtraShapeIn) -> bool {
    &&& match s.geom {
        ExtraShapeGeomIn::Point(p) => pt_ok(p),
        ExtraShapeGeomIn::Points(pl) => forall|i: int|
            0 <= i < pl@.len() ==> pt_ok(#[trigger] pl@[i]),
    }
    &&& keys_sorted(s.attributes@)
}

/// All coordinates and scalars of the map are within machine limits.
pub open spec fn map_geom_wf(m: MapData) -> bool {
    &&& forall|i: int| 0 <= i < m.lanes@.len() ==> lane_geom_ok(#[trigger] m.lanes@[i])
    &&& forall|i: int| 0 <= i < m.turns@.len() ==> turn_geom_ok(#[trigger] m.turns@[i])
    &&& forall|i: int|
        0 <= i < m.intersections@.len() ==> intersection_geom_ok(#[trigger] m.intersections@[i])
    &&& forall|i: int| 0 <= i < m.buildings@.len() ==> building_geom_ok(#[trigger] m.buildings@[i])
    &&& forall|i: int| 0 <= i < m.parcels@.len() ==> parcel_geom_ok(#[trigger] m.parcels@[i])
    &&& bbox_wf(m.bounds)
    &&& coord_ok(m.bounds.min_x) && coord_ok(m.bounds.min_y) && coord_ok(m.bounds.max_x)
        && coord_ok(m.bounds.max_y)
    &&& m.turns@.len() <= TURN_CAP
    &&& m.lanes@.len() <= OBJECT_CAP
    &&& m.intersections@.len() <= OBJECT_CAP
    &&& m.buildings@.len() <= OBJECT_CAP
    &&& m.parcels@.len() <= OBJECT_CAP
}

/// The identifiers of a turn list, in order.
pub open spec fn turn_ids(turns: Seq<TurnIn>) -> Seq<u64> {
    turns.map_values(|t: TurnIn| t.id)
}

/// The map's turn with this identifier; with distinct identifiers there is
/// at most one.
pub open spec fn find_turn(m: MapData, id: u64) -> TurnIn {
    m.turns@[choose|i: int| 0 <= i < m.turns@.len() && (#[trigger] m.turns@[i]).id == id]
}

/// Consistent topology: distinct turn identifiers, every turn anchored to an
/// existing lane.
pub open spec fn map_topology_wf(m: MapData) -> bool {
    &&& turn_ids(m.turns@).no_duplicates()
    &&& forall|i: int| 0 <= i < m.turns@.len() ==> (#[trigger] m.turns@[i]).src_lane < m.lanes@.len()
}

/// Filtering cannot raise an element's multiplicity.
pub proof fn lemma_filter_count_le(s: Seq<TurnIn>, pred: spec_fn(TurnIn) -> bool, e: TurnIn)
    ensures
        s.filter(pred).to_multiset().count(e) <= s.to_multiset().count(e),
    decreases s.len(),
{
    broadcast use vstd::seq_lib::group_to_multiset_ensures;
    broadcast use vstd::multiset::group_multiset_axioms;

    reveal(Seq::filter);
    if s.len() == 0 {
    } else {
        lemma_filter_count_le(s.drop_last(), pred, e);
        s.drop_last().to_multiset_ensures();
        s.drop_last().filter(pred).to_multiset_ensures();
        assert(s == s.drop_last().push(s.last()));
        assert(s.to_multiset() == s.drop_last().to_multiset().insert(s.last()));
        if pred(s.last()) {
            assert(s.filter(pred) == s.drop_last().filter(pred).push(s.last()));
            assert(s.filter(pred).to_multiset() == s.drop_last().filter(pred).to_multiset().insert(
                s.last(),
            ));
        }
    }
}

/// With distinct identifiers over the whole list, any filtered sub-list has
/// distinct identifiers too.
pub proof fn lemma_filter_ids_nodup(s: Seq<TurnIn>, pred: spec_fn(TurnIn) -> bool)
    requires
        turn_ids(s).no_duplicates(),
    ensures
        turn_ids(s.filter(pred)).no_duplicates(),
{
    broadcast use vstd::seq_lib::group_to_multiset_ensures;
    broadcast use vstd::multiset::group_multiset_axioms;

    let f = s.filter(pred);
    assert(s.no_duplicates()) by {
        assert forall|p: int, q: int|
            0 <= p < s.len() && 0 <= q < s.len() && p != q implies s[p] != s[q] by {
            assert(turn_ids(s)[p] == s[p].id);
            assert(turn_ids(s)[q] == s[q].id);
        }
    }
    s.lemma_multiset_has_no_duplicates();
    assert forall|p: int, q: int|
        0 <= p < turn_ids(f).len() && 0 <= q < turn_ids(f).len() && p != q implies turn_ids(f)[p]
        != turn_ids(f)[q] by {
        if turn_ids(f)[p] == turn_ids(f)[q] {
            let x = f[p];
            let y = f[q];
            assert(x.id == y.id);
            if x == y {
                assert(f.remove(p).to_multiset() =~= f.to_multiset().remove(x));
                if q < p {
                    assert(f.remove(p)[q] == y);
                } else {
                    assert(f.remove(p)[q - 1] == y);
                }
                assert(f.remove(p).contains(x));
                assert(f.to_multiset().remove(x).count(x) > 0);
                assert(f.to_multiset().count(x) >= 2);
                lemma_filter_count_le(s, pred, x);
            } else {
                assert(f.contains(x) && f.contains(y));
                assert(f.to_multiset().count(x) > 0 && f.to_multiset().count(y) > 0);
                lemma_filter_count_le(s, pred, x);
                lemma_filter_count_le(s, pred, y);
                assert(s.contains(x) && s.contains(y));
                let pa = choose|i: int| 0 <= i < s.len() && s[i] == x;
                let qa = choose|i: int| 0 <= i < s.len() && s[i] == y;
                assert(turn_ids(s)[pa] == x.id);
                assert(turn_ids(s)[qa] == y.id);
            }
        }
    }
}

/// Every element of a filtered list is an element of the original.
pub proof fn lemma_filter_element(s: Seq<TurnIn>, pred: spec_fn(TurnIn) -> bool, p: int)
    requires
        0 <= p < s.filter(pred).len(),
    ensures
        s.contains(s.filter(pred)[p]),
        pred(s.filter(pred)[p]),
    decreases s.len(),
{
    broadcast use vstd::seq_lib::group_to_multiset_ensures;
    broadcast use vstd::multiset::group_multiset_axioms;

    let f = s.filter(pred);
    assert(f.contains(f[p]));
    assert(f.to_multiset().count(f[p]) > 0);
    lemma_filter_count_le(s, pred, f[p]);
    assert(s.to_multiset().count(f[p]) > 0);
    assert(s.contains(f[p]));
    s.lemma_filter_pred(pred, p);
}

/// The predicate picking the turns that leave one lane.
pub open spec fn from_lane_pred(lane: u64) -> spec_fn(TurnIn) -> bool {
    |t: TurnIn| t.src_lane == lane
}

impl MapData {
    /// The turns leaving the lane at position `lane`, in map order.
    pub fn get_turns_from_lane(&self, lane: u64) -> (r: Vec<TurnIn>)
        ensures
            r@ == self.turns@.filter(from_lane_pred(lane)),
    {
        let mut r: Vec<TurnIn> = Vec::new();
        let mut i: usize = 0;
        while i < self.turns.len()
            invariant
                0 <= i <= self.turns@.len(),
                r@ == self.turns@.take(i as int).filter(from_lane_pred(lane)),
            decreases self.turns@.len() - i,
        {
            let t = self.turns[i];
            proof {
                reveal(Seq::filter);
                assert(self.turns@.take(i + 1).drop_last() =~= self.turns@.take(i as int));
                assert(self.turns@.take(i + 1).last() == self.turns@[i as int]);
            }
            if t.src_lane == lane {
                r.push(t);
            }
            i += 1;
        }
        proof {
            assert(self.turns@.take(self.turns@.len() as int) =~= self.turns@);
        }
        r
    }

    /// The turn with this identifier, if the map has one.
    pub fn get_t(&self, id: u64) -> (r: Option<TurnIn>)
        ensures
            match r {
                Some(t) => turn_ids(self.turns@).contains(id) && self.turns@.contains(t) && t.id
                    == id,
                None => !turn_ids(self.turns@).contains(id),
            },
    {
        let mut i: usize = 0;
        while i < self.turns.len()
            invariant
                0 <= i <= self.turns@.len(),
                forall|j: int| 0 <= j < i ==> (#[trigger] self.turns@[j]).id != id,
            decreases self.turns@.len() - i,
        {
            let t = self.turns[i];
            if t.id == id {
                proof {
                    assert(turn_ids(self.turns@)[i as int] == id);
                }
                return Some(t);
            }
            i += 1;
        }
        proof {
            assert forall|j: int| 0 <= j < turn_ids(self.turns@).len() implies turn_ids(
                self.turns@,
            )[j] != id by {
                assert(self.turns@[j].id != id);
            }
        }
        None
    }
}

} // verus!

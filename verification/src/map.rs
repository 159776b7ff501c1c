//! The scene index: per-category drawable storage plus one spatial index per
//! category, built once from the map and mutated incrementally.

use vstd::prelude::*;

use crate::assoc::{
    assoc_keys, assoc_map, lemma_assoc_map_membership, lemma_assoc_map_values,
};
use crate::building::{building_degenerate, spec_trimmed_len, DrawBuilding};
use crate::category_index::CategoryIndex;
use crate::extra_shape::{extra_shape_degenerate, DrawExtraShape};
use crate::geometry::{band_polygon, bbox_contains, bbox_wf, spec_bbox_union, BBox, Pt};
use crate::map_data::{
    lemma_filter_element, lemma_filter_ids_nodup, map_geom_wf, map_topology_wf, turn_geom_ok,
    turn_ids, BuildingIn, ExtraShapeIn, LaneIn, MapData, ParcelIn, TurnIn,
};
use crate::objects::{
    intersection_degenerate, intersection_markers, lane_degenerate, parcel_degenerate,
    spec_draw_turn, DrawIntersection, DrawLane, DrawParcel, DrawTurn,
};
use crate::render::Renderable;
use crate::turn_offsets::{
    count_group, in_dst_group, lemma_count_group_le, lemma_slots_ok_agree, resolve, resolved,
    slots_ok,
};

verus! {

/// Why a build was aborted: the upstream topology is inconsistent (duplicate
/// turn identifiers, a turn without its lane, or a slot count that does not
/// match the turn count).
#[derive(Clone, Copy, PartialEq, Eq, Structural, Debug)]
pub enum BuildError {
    TopologyMismatch,
}

/// A live count is never negative nor larger than the storage.
pub proof fn lemma_count_live_bounds<T>(s: Seq<Option<T>>)
    ensures
        0 <= count_live(s) <= s.len(),
    decreases s.len(),
{
    if s.len() > 0 {
        lemma_count_live_bounds(s.drop_last());
    }
}

/// How many entries of an optional storage are live.
pub open spec fn count_live<T>(s: Seq<Option<T>>) -> int
    decreases s.len(),
{
    if s.len() == 0 {
        0
    } else {
        count_live(s.drop_last()) + if s.last() is Some {
            1int
        } else {
            0int
        }
    }
}

/// The turns leaving the lane at position `l`, in map order.
pub open spec fn lane_turns(m: MapData, l: u64) -> Seq<TurnIn> {
    m.turns@.filter(crate::map_data::from_lane_pred(l))
}

/// Some turn of a lane below `l` carries this identifier.
pub open spec fn covered(m: MapData, l: int, id: u64) -> bool {
    exists|i: int|
        0 <= i < m.turns@.len() && (#[trigger] m.turns@[i]).src_lane < l && m.turns@[i].id == id
}

/// The slot each stored turn was assigned.
pub open spec fn turn_slot_map(ts: Seq<(u64, DrawTurn)>) -> Map<u64, usize> {
    assoc_map(ts.map_values(|e: (u64, DrawTurn)| (e.0, e.1.slot)))
}

/// Lane storage correctly derived from the map's lanes.
pub open spec fn lanes_built(storage: Seq<Option<DrawLane>>, lanes_in: Seq<LaneIn>) -> bool {
    &&& storage.len() == lanes_in.len()
    &&& (forall|i: int|
        0 <= i < lanes_in.len() ==> ((#[trigger] storage[i]) is Some <==> !lane_degenerate(
            lanes_in[i],
        )))
    &&& (forall|i: int|
        0 <= i < lanes_in.len() && storage[i] is Some ==> {
            let d = (#[trigger] storage[i])->Some_0;
            &&& d.wf()
            &&& d.id == i as u64
            &&& d.lane_type == lanes_in[i].lane_type
            &&& d.polygon.points@ == band_polygon(lanes_in[i].centerline@, lanes_in[i].width)
            &&& d.bbox == crate::geometry::spec_extent(
                band_polygon(lanes_in[i].centerline@, lanes_in[i].width),
            )
            &&& d.start == lanes_in[i].centerline@[0]
            &&& d.end == lanes_in[i].centerline@.last()
        })
}

/// Intersection storage correctly derived from the map; anchors read the
/// already-derived lane storage.
pub open spec fn intersections_built(
    storage: Seq<Option<DrawIntersection>>,
    m: MapData,
    lanes: Seq<Option<DrawLane>>,
) -> bool {
    &&& storage.len() == m.intersections@.len()
    &&& (forall|i: int|
        0 <= i < storage.len() ==> ((#[trigger] storage[i]) is Some <==> !intersection_degenerate(
            m.intersections@[i],
        )))
    &&& (forall|i: int|
        0 <= i < storage.len() && storage[i] is Some ==> {
            let d = (#[trigger] storage[i])->Some_0;
            &&& d.wf()
            &&& d.id == i as u64
            &&& d.polygon.points@ == m.intersections@[i].points@
            &&& d.markers@ == intersection_markers(
                m.intersections@[i].incident_lanes@,
                m.lanes@,
                lanes,
                i as u64,
            )
        })
}

/// Building storage correctly derived from the map's buildings.
pub open spec fn buildings_built(
    storage: Seq<Option<DrawBuilding>>,
    buildings_in: Seq<BuildingIn>,
) -> bool {
    &&& storage.len() == buildings_in.len()
    &&& (forall|i: int|
        0 <= i < storage.len() ==> ((#[trigger] storage[i]) is Some <==> !building_degenerate(
            buildings_in[i],
        )))
    &&& (forall|i: int|
        0 <= i < storage.len() && storage[i] is Some ==> {
            let d = (#[trigger] storage[i])->Some_0;
            let b = buildings_in[i];
            &&& d.wf()
            &&& d.id == i as u64
            &&& d.fill_polygon.points@ == b.points@
            &&& d.front_path.line == b.front_path
            &&& d.front_path.draw_len == spec_trimmed_len(b.front_path_len, b.sidewalk_thickness)
            &&& d.osm_way_id == b.osm_way_id
            &&& d.tags@ == b.osm_tags@
            &&& d.label == crate::building::find_tag(b.osm_tags@, "addr:housenumber"@)
            &&& d.label_pos == b.label_center
            &&& d.has_parking_icon == b.has_parking
        })
}

/// Parcel storage correctly derived from the map's parcels.
pub open spec fn parcels_built(storage: Seq<Option<DrawParcel>>, parcels_in: Seq<ParcelIn>) -> bool {
    &&& storage.len() == parcels_in.len()
    &&& (forall|i: int|
        0 <= i < storage.len() ==> ((#[trigger] storage[i]) is Some <==> !parcel_degenerate(
            parcels_in[i],
        )))
    &&& (forall|i: int|
        0 <= i < storage.len() && storage[i] is Some ==> {
            let d = (#[trigger] storage[i])->Some_0;
            &&& d.wf()
            &&& d.id == i as u64
            &&& d.fill_polygon.points@ == parcels_in[i].points@
        })
}

/// Annotation storage correctly derived from the raw shapes.
pub open spec fn shapes_built(
    storage: Seq<Option<DrawExtraShape>>,
    shapes_in: Seq<ExtraShapeIn>,
) -> bool {
    &&& storage.len() == shapes_in.len()
    &&& (forall|i: int|
        0 <= i < storage.len() ==> ((#[trigger] storage[i]) is Some <==> !extra_shape_degenerate(
            shapes_in[i],
        )))
    &&& (forall|i: int|
        0 <= i < storage.len() && storage[i] is Some ==> {
            let d = (#[trigger] storage[i])->Some_0;
            &&& d.wf()
            &&& d.id == i as u64
            &&& d.attributes == shapes_in[i].attributes
        })
}

/// Turn storage correctly derived: one drawable per map turn, with slots
/// that are correct for every lane.
pub open spec fn turns_built(ts: Seq<(u64, DrawTurn)>, m: MapData) -> bool {
    &&& assoc_keys(ts).no_duplicates()
    &&& ts.len() == m.turns@.len()
    &&& (forall|id: u64| #[trigger] assoc_keys(ts).contains(id) <==> turn_ids(m.turns@).contains(
        id,
    ))
    &&& (forall|l: int|
        0 <= l < m.lanes@.len() ==> slots_ok(
            lane_turns(m, l as u64),
            #[trigger] m.lanes@[l],
            turn_slot_map(ts),
        ))
    &&& (forall|i: int|
        0 <= i < m.turns@.len() ==> {
            let t = #[trigger] m.turns@[i];
            let a = assoc_map(ts);
            &&& a.contains_key(t.id)
            &&& a[t.id] == spec_draw_turn(t, a[t.id].slot)
            &&& a[t.id].wf()
            &&& turn_slot_map(ts).contains_key(t.id)
            &&& turn_slot_map(ts)[t.id] == a[t.id].slot
        })
}

/// One category's storage and spatial index are consistent: an identifier is
/// indexed exactly when its drawable is live, under that drawable's box, and
/// every indexed box lies within the scene bounds.
pub open spec fn category_consistent<T: Renderable>(
    storage: Seq<Option<T>>,
    idx: Map<u64, BBox>,
    scene_bounds: BBox,
) -> bool {
    &&& (forall|id: u64| #[trigger] idx.contains_key(id) <==> (id < storage.len()
        && storage[id as int] is Some))
    &&& (forall|id: u64| #[trigger] idx.contains_key(id) ==> idx[id]
        == storage[id as int]->Some_0.bbox_spec())
    &&& (forall|id: u64| #[trigger] idx.contains_key(id) ==> bbox_wf(idx[id]) && bbox_contains(
        scene_bounds,
        idx[id],
    ))
    &&& (forall|id: u64| #[trigger] idx.contains_key(id) ==> storage[id as int]->Some_0.id_spec()
        == id)
}

/// A base box widened over a category's live drawable boxes, in storage
/// order.
pub open spec fn extend_over_storage<T: Renderable>(base: BBox, s: Seq<Option<T>>) -> BBox
    decreases s.len(),
{
    if s.len() == 0 {
        base
    } else {
        let prev = extend_over_storage(base, s.drop_last());
        if s.last() is Some {
            spec_bbox_union(prev, s.last()->Some_0.bbox_spec())
        } else {
            prev
        }
    }
}

/// Gathers the live entries of one category and widens the running scene
/// bounds over their boxes.
fn collect_entries<T: Renderable>(storage: &Vec<Option<T>>, bounds: &BBox) -> (r: (
    Vec<(u64, BBox)>,
    BBox,
))
    requires
        bbox_wf(*bounds),
        forall|i: int|
            0 <= i < storage@.len() && storage@[i] is Some ==> {
                let d = (#[trigger] storage@[i])->Some_0;
                bbox_wf(d.bbox_spec()) && d.id_spec() == i as u64
            },
    ensures
        ({
            let (entries, out) = r;
            &&& assoc_keys(entries@).no_duplicates()
            &&& (forall|i: int| 0 <= i < entries@.len() ==> bbox_wf((#[trigger] entries@[i]).1))
            &&& (forall|id: u64| #[trigger] assoc_map(entries@).contains_key(id) <==> (id
                < storage@.len() && storage@[id as int] is Some))
            &&& (forall|id: u64| #[trigger] assoc_map(entries@).contains_key(id) ==> assoc_map(
                entries@,
            )[id] == storage@[id as int]->Some_0.bbox_spec())
            &&& bbox_wf(out)
            &&& bbox_contains(out, *bounds)
            &&& out == extend_over_storage(*bounds, storage@)
            &&& (forall|id: u64| #[trigger] assoc_map(entries@).contains_key(id) ==> bbox_contains(
                out,
                assoc_map(entries@)[id],
            ))
        }),
{
    let mut entries: Vec<(u64, BBox)> = Vec::new();
    let mut out = BBox {
        min_x: bounds.min_x,
        min_y: bounds.min_y,
        max_x: bounds.max_x,
        max_y: bounds.max_y,
    };
    let mut i: usize = 0;
    while i < storage.len()
        invariant
            0 <= i <= storage@.len(),
            forall|j: int|
                0 <= j < storage@.len() && storage@[j] is Some ==> {
                    let d = (#[trigger] storage@[j])->Some_0;
                    bbox_wf(d.bbox_spec()) && d.id_spec() == j as u64
                },
            bbox_wf(out),
            bbox_contains(out, *bounds),
            out == extend_over_storage(*bounds, storage@.take(i as int)),
            forall|p: int, q: int|
                0 <= p < q < entries@.len() ==> (#[trigger] entries@[p]).0 < (
                #[trigger] entries@[q]).0,
            forall|p: int|
                0 <= p < entries@.len() ==> {
                    let e = #[trigger] entries@[p];
                    &&& e.0 < i as u64
                    &&& storage@[e.0 as int] is Some
                    &&& e.1 == storage@[e.0 as int]->Some_0.bbox_spec()
                    &&& bbox_wf(e.1)
                    &&& bbox_contains(out, e.1)
                },
            forall|id: u64|
                id < i && storage@[id as int] is Some ==> exists|p: int|
                    0 <= p < entries@.len() && (#[trigger] entries@[p]).0 == id,
        decreases storage@.len() - i,
    {
        let ghost out_before = out;
        let ghost entries_before = entries@;
        proof {
            assert(storage@.take(i + 1).drop_last() =~= storage@.take(i as int));
            assert(storage@.take(i + 1).last() == storage@[i as int]);
        }
        match &storage[i] {
            Some(d) => {
                let bb = d.get_bbox();
                entries.push((i as u64, bb));
                out = out.union(&bb);
                proof {
                    assert forall|p: int| 0 <= p < entries@.len() implies {
                        let e = #[trigger] entries@[p];
                        &&& e.0 < (i + 1) as u64
                        &&& storage@[e.0 as int] is Some
                        &&& e.1 == storage@[e.0 as int]->Some_0.bbox_spec()
                        &&& bbox_wf(e.1)
                        &&& bbox_contains(out, e.1)
                    } by {
                        if p < entries@.len() - 1 {
                            assert(bbox_contains(out_before, entries@[p].1));
                        }
                    }
                    assert forall|id: u64|
                        id < i + 1 && storage@[id as int] is Some implies exists|p: int|
                        0 <= p < entries@.len() && (#[trigger] entries@[p]).0 == id by {
                        if id < i {
                            let p = choose|p: int|
                                0 <= p < entries_before.len() && (
                                #[trigger] entries_before[p]).0 == id;
                            assert(entries@[p].0 == id);
                        } else {
                            assert(entries@[entries@.len() - 1].0 == id);
                        }
                    }
                }
            },
            None => {},
        }
        i += 1;
    }
    proof {
        assert(storage@.take(storage@.len() as int) =~= storage@);
        let s = entries@;
        assert(assoc_keys(s).no_duplicates()) by {
            assert forall|p: int, q: int|
                0 <= p < assoc_keys(s).len() && 0 <= q < assoc_keys(s).len() && p
                    != q implies assoc_keys(s)[p] != assoc_keys(s)[q] by {
                assert(assoc_keys(s)[p] == s[p].0);
                assert(assoc_keys(s)[q] == s[q].0);
            }
        }
        lemma_assoc_map_membership(s);
        lemma_assoc_map_values(s);
        assert forall|id: u64| #[trigger] assoc_map(s).contains_key(id) implies (id
            < storage@.len() && storage@[id as int] is Some && assoc_map(s)[id] == storage@[id as int]->Some_0.bbox_spec()
            && bbox_contains(out, assoc_map(s)[id])) by {
            assert(assoc_keys(s).contains(id));
            let p = choose|p: int| 0 <= p < assoc_keys(s).len() && assoc_keys(s)[p] == id;
            assert(s[p].0 == id);
            assert(assoc_map(s)[id] == s[p].1);
        }
        assert forall|id: u64|
            id < storage@.len() && storage@[id as int] is Some implies #[trigger] assoc_map(
            s,
        ).contains_key(id) by {
            let p = choose|p: int| 0 <= p < s.len() && (#[trigger] s[p]).0 == id;
            assert(assoc_keys(s)[p] == id);
        }
    }
    (entries, out)
}

/// Appends one lane's slot assignments to the global table: the lane's
/// turns, split by endpoint, sorted by angle and identifier, numbered from
/// zero per group.
fn compute_turn_to_lane_offset(result: &mut Vec<(u64, usize)>, lane_idx: usize, map: &MapData)
    requires
        lane_idx < map.lanes@.len(),
        turn_ids(map.turns@).no_duplicates(),
    ensures
        final(result)@.len() >= old(result)@.len(),
        final(result)@.take(old(result)@.len() as int) == old(result)@,
        resolved(
            lane_turns(*map, lane_idx as u64),
            map.lanes@[lane_idx as int],
            final(result)@.subrange(old(result)@.len() as int, final(result)@.len() as int),
        ),
{
    proof {
        lemma_filter_ids_nodup(map.turns@, crate::map_data::from_lane_pred(lane_idx as u64));
    }
    let turns = map.get_turns_from_lane(lane_idx as u64);
    proof {
        assert(turn_ids(turns@) =~= turn_ids(map.turns@.filter(crate::map_data::from_lane_pred(
            lane_idx as u64,
        ))));
    }
    let mut assignments = resolve(&turns, &map.lanes[lane_idx]);
    let ghost before = result@;
    let ghost app = assignments@;
    result.append(&mut assignments);
    proof {
        assert(result@.take(before.len() as int) =~= before);
        assert(result@.subrange(before.len() as int, result@.len() as int) =~= app);
    }
}

/// Builds the whole map's slot table, one lane at a time.
fn build_turn_table(map: &MapData) -> (r: Vec<(u64, usize)>)
    requires
        map_geom_wf(*map),
        turn_ids(map.turns@).no_duplicates(),
    ensures
        assoc_keys(r@).no_duplicates(),
        forall|id: u64| #[trigger]
            assoc_keys(r@).contains(id) <==> covered(*map, map.lanes@.len() as int, id),
        forall|l: int|
            0 <= l < map.lanes@.len() ==> slots_ok(
                lane_turns(*map, l as u64),
                #[trigger] map.lanes@[l],
                assoc_map(r@),
            ),
{
    let mut table: Vec<(u64, usize)> = Vec::new();
    let mut l: usize = 0;
    while l < map.lanes.len()
        invariant
            0 <= l <= map.lanes@.len(),
            map_geom_wf(*map),
            turn_ids(map.turns@).no_duplicates(),
            assoc_keys(table@).no_duplicates(),
            forall|id: u64| #[trigger]
                assoc_keys(table@).contains(id) <==> covered(*map, l as int, id),
            forall|l2: int|
                0 <= l2 < l ==> slots_ok(
                    lane_turns(*map, l2 as u64),
                    #[trigger] map.lanes@[l2],
                    assoc_map(table@),
                ),
        decreases map.lanes@.len() - l,
    {
        let ghost before = table@;
        compute_turn_to_lane_offset(&mut table, l, map);
        proof {
            lemma_table_extension(*map, l as int, before, table@);
        }
        l += 1;
    }
    table
}

/// One step of the table build keeps every invariant: the appended lane's
/// identifiers are fresh, coverage grows by exactly that lane, and earlier
/// lanes' slot maps are untouched.
proof fn lemma_table_extension(
    m: MapData,
    l: int,
    before: Seq<(u64, usize)>,
    after: Seq<(u64, usize)>,
)
    requires
        0 <= l < m.lanes@.len(),
        m.lanes@.len() <= usize::MAX,
        m.turns@.len() <= usize::MAX,
        turn_ids(m.turns@).no_duplicates(),
        assoc_keys(before).no_duplicates(),
        forall|id: u64| #[trigger] assoc_keys(before).contains(id) <==> covered(m, l, id),
        forall|l2: int|
            0 <= l2 < l ==> slots_ok(
                lane_turns(m, l2 as u64),
                #[trigger] m.lanes@[l2],
                assoc_map(before),
            ),
        after.len() >= before.len(),
        after.take(before.len() as int) == before,
        resolved(
            lane_turns(m, l as u64),
            m.lanes@[l],
            after.subrange(before.len() as int, after.len() as int),
        ),
    ensures
        assoc_keys(after).no_duplicates(),
        forall|id: u64| #[trigger] assoc_keys(after).contains(id) <==> covered(m, l + 1, id),
        forall|l2: int|
            0 <= l2 < l + 1 ==> slots_ok(
                lane_turns(m, l2 as u64),
                #[trigger] m.lanes@[l2],
                assoc_map(after),
            ),
{
    let app = after.subrange(before.len() as int, after.len() as int);
    let f = lane_turns(m, l as u64);
    let keys_b = assoc_keys(before);
    let keys_a = assoc_keys(app);
    let keys = assoc_keys(after);
    assert(after =~= before + app);
    assert(keys =~= keys_b + keys_a);

    // Every appended identifier belongs to a turn leaving lane l.
    assert forall|id: u64| #[trigger] keys_a.contains(id) implies (covered(m, l + 1, id)
        && !covered(m, l, id)) by {
        assert(turn_ids(f).contains(id));
        let p = choose|p: int| 0 <= p < turn_ids(f).len() && turn_ids(f)[p] == id;
        assert(f[p].id == id);
        lemma_filter_element(m.turns@, crate::map_data::from_lane_pred(l as u64), p);
        assert(m.turns@.contains(f[p]));
        let i = choose|i: int| 0 <= i < m.turns@.len() && m.turns@[i] == f[p];
        assert(m.turns@[i].src_lane == l as u64);
        assert(covered(m, l + 1, id));
        if covered(m, l, id) {
            let j = choose|j: int|
                0 <= j < m.turns@.len() && (#[trigger] m.turns@[j]).src_lane < l && m.turns@[j].id
                    == id;
            assert(turn_ids(m.turns@)[i] == id);
            assert(turn_ids(m.turns@)[j] == id);
            assert(i == j);
        }
    }
    // Coverage below lane l stays, so old and new identifiers are disjoint.
    assert(keys.no_duplicates()) by {
        assert forall|p: int, q: int|
            0 <= p < keys.len() && 0 <= q < keys.len() && p != q implies keys[p] != keys[q] by {
            let nb = keys_b.len() as int;
            if p < nb && q < nb {
                assert(keys[p] == keys_b[p] && keys[q] == keys_b[q]);
            } else if p >= nb && q >= nb {
                assert(keys[p] == keys_a[p - nb] && keys[q] == keys_a[q - nb]);
            } else if keys[p] == keys[q] {
                let (bi, ai): (int, int) = if p < nb {
                    (p, q - nb)
                } else {
                    (q, p - nb)
                };
                assert(keys_b[bi] == keys_a[ai]);
                assert(keys_b.contains(keys_b[bi]));
                assert(keys_a.contains(keys_a[ai]));
            }
        }
    }
    assert forall|id: u64| #[trigger] keys.contains(id) implies covered(m, l + 1, id) by {
        let p = choose|p: int| 0 <= p < keys.len() && keys[p] == id;
        if p < keys_b.len() {
            assert(keys_b.contains(id));
            let j = choose|j: int|
                0 <= j < m.turns@.len() && (#[trigger] m.turns@[j]).src_lane < l && m.turns@[j].id
                    == id;
            assert(m.turns@[j].src_lane < l + 1);
        } else {
            assert(keys_a.contains(keys_a[p - keys_b.len()]));
        }
    }
    assert forall|id: u64| covered(m, l + 1, id) implies #[trigger] keys.contains(id) by {
        let i = choose|i: int|
            0 <= i < m.turns@.len() && (#[trigger] m.turns@[i]).src_lane < l + 1 && m.turns@[i].id
                == id;
        if m.turns@[i].src_lane < l {
            assert(covered(m, l, id));
            assert(keys_b.contains(id));
            let p = choose|p: int| 0 <= p < keys_b.len() && keys_b[p] == id;
            assert(keys[p] == id);
        } else {
            assert(m.turns@[i].src_lane == l as u64);
            let pred = crate::map_data::from_lane_pred(l as u64);
            m.turns@.lemma_filter_contains(pred, i);
            assert(f.contains(m.turns@[i]));
            let p = choose|p: int| 0 <= p < f.len() && f[p] == m.turns@[i];
            assert(turn_ids(f)[p] == id);
            assert(turn_ids(f).contains(id));
            assert(keys_a.contains(id));
            let q = choose|q: int| 0 <= q < keys_a.len() && keys_a[q] == id;
            assert(keys[keys_b.len() + q] == id);
        }
    }
    // Old and appended entries keep their values in the joined map.
    lemma_assoc_map_values(after);
    lemma_assoc_map_values(before);
    lemma_assoc_map_values(app);
    lemma_assoc_map_membership(after);
    lemma_assoc_map_membership(before);
    lemma_assoc_map_membership(app);
    assert forall|l2: int| 0 <= l2 < l + 1 implies slots_ok(
        lane_turns(m, l2 as u64),
        #[trigger] m.lanes@[l2],
        assoc_map(after),
    ) by {
        if l2 < l {
            let f2 = lane_turns(m, l2 as u64);
            assert forall|i: int| 0 <= i < f2.len() implies assoc_map(after).contains_key(
                (#[trigger] f2[i]).id,
            ) && assoc_map(after)[f2[i].id] == assoc_map(before)[f2[i].id] by {
                assert(assoc_map(before).contains_key(f2[i].id));
                assert(keys_b.contains(f2[i].id));
                let p = choose|p: int| 0 <= p < keys_b.len() && keys_b[p] == f2[i].id;
                assert(before[p].0 == f2[i].id);
                assert(after[p] == before[p]);
                assert(assoc_map(after)[f2[i].id] == after[p].1);
                assert(assoc_map(before)[f2[i].id] == before[p].1);
            }
            lemma_slots_ok_agree(f2, m.lanes@[l2], assoc_map(before), assoc_map(after));
        } else {
            assert forall|i: int| 0 <= i < f.len() implies assoc_map(after).contains_key(
                (#[trigger] f[i]).id,
            ) && assoc_map(after)[f[i].id] == assoc_map(app)[f[i].id] by {
                assert(turn_ids(f)[i] == f[i].id);
                assert(turn_ids(f).contains(f[i].id));
                assert(keys_a.contains(f[i].id));
                let p = choose|p: int| 0 <= p < keys_a.len() && keys_a[p] == f[i].id;
                assert(app[p].0 == f[i].id);
                assert(after[keys_b.len() + p] == app[p]);
                assert(assoc_map(after)[f[i].id] == after[keys_b.len() + p].1);
                assert(assoc_map(app)[f[i].id] == app[p].1);
            }
            lemma_slots_ok_agree(f, m.lanes@[l2], assoc_map(app), assoc_map(after));
        }
    }
}

/// The slot assigned to one turn, if the table has it.
fn assoc_get(table: &Vec<(u64, usize)>, id: u64) -> (r: Option<usize>)
    requires
        assoc_keys(table@).no_duplicates(),
    ensures
        r == if assoc_map(table@).contains_key(id) {
            Some(assoc_map(table@)[id])
        } else {
            None::<usize>
        },
{
    proof {
        lemma_assoc_map_membership(table@);
        lemma_assoc_map_values(table@);
    }
    let mut i: usize = 0;
    while i < table.len()
        invariant
            0 <= i <= table@.len(),
            forall|j: int| 0 <= j < i ==> (#[trigger] table@[j]).0 != id,
            assoc_keys(table@).no_duplicates(),
        decreases table@.len() - i,
    {
        if table[i].0 == id {
            proof {
                lemma_assoc_map_membership(table@);
                lemma_assoc_map_values(table@);
                assert(assoc_keys(table@)[i as int] == id);
            }
            return Some(table[i].1);
        }
        i += 1;
    }
    proof {
        assert(!assoc_keys(table@).contains(id)) by {
            if assoc_keys(table@).contains(id) {
                let j = choose|j: int|
                    0 <= j < assoc_keys(table@).len() && assoc_keys(table@)[j] == id;
                assert(table@[j].0 == id);
            }
        }
    }
    None
}


/// Whether the map's turn identifiers are pairwise distinct.
fn turn_ids_unique(turns: &Vec<TurnIn>) -> (r: bool)
    ensures
        r == turn_ids(turns@).no_duplicates(),
{
    let mut i: usize = 0;
    while i < turns.len()
        invariant
            0 <= i <= turns@.len(),
            forall|p: int, q: int|
                0 <= p < i && p < q < turns@.len() ==> (#[trigger] turns@[p]).id != (
                #[trigger] turns@[q]).id,
        decreases turns@.len() - i,
    {
        let mut j: usize = i + 1;
        while j < turns.len()
            invariant
                0 <= i < j <= turns@.len(),
                forall|p: int, q: int|
                    0 <= p < i && p < q < turns@.len() ==> (#[trigger] turns@[p]).id != (
                    #[trigger] turns@[q]).id,
                forall|q: int| i < q < j ==> (#[trigger] turns@[q]).id != turns@[i as int].id,
            decreases turns@.len() - j,
        {
            if turns[j].id == turns[i].id {
                proof {
                    assert(turn_ids(turns@)[i as int] == turns@[i as int].id);
                    assert(turn_ids(turns@)[j as int] == turns@[j as int].id);
                }
                return false;
            }
            j += 1;
        }
        i += 1;
    }
    proof {
        assert forall|p: int, q: int|
            0 <= p < turn_ids(turns@).len() && 0 <= q < turn_ids(turns@).len() && p
                != q implies turn_ids(turns@)[p] != turn_ids(turns@)[q] by {
            assert(turn_ids(turns@)[p] == turns@[p].id);
            assert(turn_ids(turns@)[q] == turns@[q].id);
        }
    }
    true
}

fn build_lanes(map: &MapData) -> (r: (Vec<Option<DrawLane>>, usize))
    requires
        map_geom_wf(*map),
    ensures
        lanes_built(r.0@, map.lanes@),
        r.1 as int == map.lanes@.len() - count_live(r.0@),
{
    let mut storage: Vec<Option<DrawLane>> = Vec::new();
    let mut skipped: usize = 0;
    let mut i: usize = 0;
    while i < map.lanes.len()
        invariant
            0 <= i <= map.lanes@.len(),
            map_geom_wf(*map),
            storage@.len() == i,
            lanes_built(storage@, map.lanes@.take(i as int)),
            skipped as int == i - count_live(storage@),
            skipped <= i,
        decreases map.lanes@.len() - i,
    {
        let ghost st_before = storage@;
        let d = DrawLane::new(i as u64, &map.lanes[i]);
        if d.is_none() {
            skipped += 1;
        }
        storage.push(d);
        proof {
            assert(storage@.drop_last() =~= st_before);
            assert(map.lanes@.take(i + 1).drop_last() =~= map.lanes@.take(i as int));
            assert(map.lanes@.take(i + 1).last() == map.lanes@[i as int]);
            assert forall|j: int|
                0 <= j < i + 1 && storage@[j] is Some implies {
                let dd = (#[trigger] storage@[j])->Some_0;
                &&& dd.wf()
                &&& dd.id == j as u64
                &&& dd.lane_type == map.lanes@.take(i + 1)[j].lane_type
                &&& dd.polygon.points@ == band_polygon(
                    map.lanes@.take(i + 1)[j].centerline@,
                    map.lanes@.take(i + 1)[j].width,
                )
                &&& dd.bbox == crate::geometry::spec_extent(
                    band_polygon(
                        map.lanes@.take(i + 1)[j].centerline@,
                        map.lanes@.take(i + 1)[j].width,
                    ),
                )
                &&& dd.start == map.lanes@.take(i + 1)[j].centerline@[0]
                &&& dd.end == map.lanes@.take(i + 1)[j].centerline@.last()
            } by {
                if j < i {
                    assert(st_before[j] == storage@[j]);
                    assert(map.lanes@.take(i as int)[j] == map.lanes@.take(i + 1)[j]);
                }
            }
        }
        i += 1;
    }
    proof {
        assert(map.lanes@.take(map.lanes@.len() as int) =~= map.lanes@);
    }
    (storage, skipped)
}

fn build_intersections(map: &MapData, lanes: &Vec<Option<DrawLane>>) -> (r: (
    Vec<Option<DrawIntersection>>,
    usize,
))
    requires
        map_geom_wf(*map),
        forall|j: int|
            0 <= j < lanes@.len() && lanes@[j] is Some ==> (#[trigger] lanes@[j])->Some_0.wf(),
    ensures
        intersections_built(r.0@, *map, lanes@),
        r.1 as int == map.intersections@.len() - count_live(r.0@),
{
    let mut storage: Vec<Option<DrawIntersection>> = Vec::new();
    let mut skipped: usize = 0;
    let mut i: usize = 0;
    while i < map.intersections.len()
        invariant
            0 <= i <= map.intersections@.len(),
            map_geom_wf(*map),
            forall|j: int|
                0 <= j < lanes@.len() && lanes@[j] is Some ==> (#[trigger] lanes@[j])->Some_0.wf(),
            storage@.len() == i,
            forall|j: int|
                0 <= j < i ==> ((#[trigger] storage@[j]) is Some <==> !intersection_degenerate(
                    map.intersections@[j],
                )),
            forall|j: int|
                0 <= j < i && storage@[j] is Some ==> {
                    let d = (#[trigger] storage@[j])->Some_0;
                    &&& d.wf()
                    &&& d.id == j as u64
                    &&& d.polygon.points@ == map.intersections@[j].points@
                    &&& d.markers@ == intersection_markers(
                        map.intersections@[j].incident_lanes@,
                        map.lanes@,
                        lanes@,
                        j as u64,
                    )
                },
            skipped as int == i - count_live(storage@),
            skipped <= i,
        decreases map.intersections@.len() - i,
    {
        let ghost st_before = storage@;
        let d = DrawIntersection::new(i as u64, &map.intersections[i], map, lanes);
        if d.is_none() {
            skipped += 1;
        }
        storage.push(d);
        proof {
            assert(storage@.drop_last() =~= st_before);
        }
        i += 1;
    }
    (storage, skipped)
}

fn build_buildings(map: &MapData) -> (r: (Vec<Option<DrawBuilding>>, usize))
    requires
        map_geom_wf(*map),
    ensures
        buildings_built(r.0@, map.buildings@),
        r.1 as int == map.buildings@.len() - count_live(r.0@),
{
    let mut storage: Vec<Option<DrawBuilding>> = Vec::new();
    let mut skipped: usize = 0;
    let mut i: usize = 0;
    while i < map.buildings.len()
        invariant
            0 <= i <= map.buildings@.len(),
            map_geom_wf(*map),
            storage@.len() == i,
            forall|j: int|
                0 <= j < i ==> ((#[trigger] storage@[j]) is Some <==> !building_degenerate(
                    map.buildings@[j],
                )),
            forall|j: int|
                0 <= j < i && storage@[j] is Some ==> {
                    let d = (#[trigger] storage@[j])->Some_0;
                    let b = map.buildings@[j];
                    &&& d.wf()
                    &&& d.id == j as u64
                    &&& d.fill_polygon.points@ == b.points@
                    &&& d.front_path.line == b.front_path
                    &&& d.front_path.draw_len == spec_trimmed_len(
                        b.front_path_len,
                        b.sidewalk_thickness,
                    )
                    &&& d.osm_way_id == b.osm_way_id
                    &&& d.tags@ == b.osm_tags@
                    &&& d.label == crate::building::find_tag(b.osm_tags@, "addr:housenumber"@)
                    &&& d.label_pos == b.label_center
                    &&& d.has_parking_icon == b.has_parking
                },
            skipped as int == i - count_live(storage@),
            skipped <= i,
        decreases map.buildings@.len() - i,
    {
        let ghost st_before = storage@;
        let d = DrawBuilding::new(i as u64, &map.buildings[i]);
        if d.is_none() {
            skipped += 1;
        }
        storage.push(d);
        proof {
            assert(storage@.drop_last() =~= st_before);
        }
        i += 1;
    }
    (storage, skipped)
}

fn build_parcels(map: &MapData) -> (r: (Vec<Option<DrawParcel>>, usize))
    requires
        map_geom_wf(*map),
    ensures
        parcels_built(r.0@, map.parcels@),
        r.1 as int == map.parcels@.len() - count_live(r.0@),
{
    let mut storage: Vec<Option<DrawParcel>> = Vec::new();
    let mut skipped: usize = 0;
    let mut i: usize = 0;
    while i < map.parcels.len()
        invariant
            0 <= i <= map.parcels@.len(),
            map_geom_wf(*map),
            storage@.len() == i,
            forall|j: int|
                0 <= j < i ==> ((#[trigger] storage@[j]) is Some <==> !parcel_degenerate(
                    map.parcels@[j],
                )),
            forall|j: int|
                0 <= j < i && storage@[j] is Some ==> {
                    let d = (#[trigger] storage@[j])->Some_0;
                    &&& d.wf()
                    &&& d.id == j as u64
                    &&& d.fill_polygon.points@ == map.parcels@[j].points@
                },
            skipped as int == i - count_live(storage@),
            skipped <= i,
        decreases map.parcels@.len() - i,
    {
        let ghost st_before = storage@;
        let d = DrawParcel::new(i as u64, &map.parcels[i]);
        if d.is_none() {
            skipped += 1;
        }
        storage.push(d);
        proof {
            assert(storage@.drop_last() =~= st_before);
        }
        i += 1;
    }
    (storage, skipped)
}

fn build_shapes(raw: Vec<ExtraShapeIn>) -> (r: (Vec<Option<DrawExtraShape>>, usize))
    requires
        forall|i: int|
            0 <= i < raw@.len() ==> crate::map_data::extra_shape_geom_ok(#[trigger] raw@[i]),
        raw@.len() <= crate::map_data::OBJECT_CAP,
    ensures
        shapes_built(r.0@, raw@),
        r.1 as int == raw@.len() - count_live(r.0@),
{
    let ghost raw_seq = raw@;
    let mut storage: Vec<Option<DrawExtraShape>> = Vec::new();
    let mut skipped: usize = 0;
    let mut rest = raw;
    let mut i: usize = 0;
    let n = rest.len();
    while i < n
        invariant
            0 <= i <= raw_seq.len(),
            n == raw_seq.len(),
            rest@ == raw_seq.skip(i as int),
            forall|j: int|
                0 <= j < raw_seq.len() ==> crate::map_data::extra_shape_geom_ok(
                    #[trigger] raw_seq[j],
                ),
            storage@.len() == i,
            forall|j: int|
                0 <= j < i ==> ((#[trigger] storage@[j]) is Some <==> !extra_shape_degenerate(
                    raw_seq[j],
                )),
            forall|j: int|
                0 <= j < i && storage@[j] is Some ==> {
                    let d = (#[trigger] storage@[j])->Some_0;
                    &&& d.wf()
                    &&& d.id == j as u64
                    &&& d.attributes == raw_seq[j].attributes
                },
            skipped as int == i - count_live(storage@),
            skipped <= i,
        decreases raw_seq.len() - i,
    {
        let ghost st_before = storage@;
        let ghost rest_before = rest@;
        let s = rest.remove(0);
        proof {
            assert(rest@ =~= raw_seq.skip(i + 1));
            assert(rest_before[0] == raw_seq[i as int]);
        }
        let d = DrawExtraShape::new(i as u64, s);
        if d.is_none() {
            skipped += 1;
        }
        storage.push(d);
        proof {
            assert(storage@.drop_last() =~= st_before);
        }
        i += 1;
    }
    (storage, skipped)
}

/// Builds the drawable for every map turn from the global slot table.
fn build_turns(map: &MapData, table: &Vec<(u64, usize)>) -> (r: Result<
    Vec<(u64, DrawTurn)>,
    BuildError,
>)
    requires
        map_geom_wf(*map),
        turn_ids(map.turns@).no_duplicates(),
        assoc_keys(table@).no_duplicates(),
        forall|id: u64| #[trigger]
            assoc_keys(table@).contains(id) <==> covered(*map, map.lanes@.len() as int, id),
        forall|l: int|
            0 <= l < map.lanes@.len() ==> slots_ok(
                lane_turns(*map, l as u64),
                #[trigger] map.lanes@[l],
                assoc_map(table@),
            ),
    ensures
        r is Ok <==> (forall|i: int|
            0 <= i < map.turns@.len() ==> (#[trigger] map.turns@[i]).src_lane < map.lanes@.len()),
        r is Ok ==> turns_built(r->Ok_0@, *map),
{
    proof {
        lemma_assoc_map_membership(table@);
        lemma_assoc_map_values(table@);
    }
    let mut ts: Vec<(u64, DrawTurn)> = Vec::new();
    let mut i: usize = 0;
    while i < map.turns.len()
        invariant
            0 <= i <= map.turns@.len(),
            map_geom_wf(*map),
            turn_ids(map.turns@).no_duplicates(),
            assoc_keys(table@).no_duplicates(),
            forall|id: u64| #[trigger]
                assoc_keys(table@).contains(id) <==> covered(*map, map.lanes@.len() as int, id),
            forall|l: int|
                0 <= l < map.lanes@.len() ==> slots_ok(
                    lane_turns(*map, l as u64),
                    #[trigger] map.lanes@[l],
                    assoc_map(table@),
                ),
            ts@.len() == i,
            forall|j: int|
                0 <= j < i ==> {
                    let t = map.turns@[j];
                    let e = #[trigger] ts@[j];
                    &&& e.0 == t.id
                    &&& e.1 == spec_draw_turn(t, e.1.slot)
                    &&& e.1.wf()
                    &&& assoc_map(table@).contains_key(t.id)
                    &&& e.1.slot == assoc_map(table@)[t.id]
                    &&& t.src_lane < map.lanes@.len()
                },
        decreases map.turns@.len() - i,
    {
        let t = map.turns[i];
        match assoc_get(table, t.id) {
            None => {
                proof {
                    lemma_assoc_map_membership(table@);
                    assert(turn_ids(map.turns@)[i as int] == t.id);
                    if t.src_lane < map.lanes@.len() {
                        assert(covered(*map, map.lanes@.len() as int, t.id)) by {
                            assert(0 <= i < map.turns@.len() && map.turns@[i as int].src_lane
                                < map.lanes@.len() && map.turns@[i as int].id == t.id);
                        }
                        assert(assoc_keys(table@).contains(t.id));
                        assert(assoc_map(table@).contains_key(t.id));
                        assert(false);
                    }
                    assert(map.turns@[i as int].src_lane >= map.lanes@.len());
                }
                return Err(BuildError::TopologyMismatch);
            },
            Some(slot) => {
                proof {
                    lemma_assoc_map_membership(table@);
                    assert(assoc_keys(table@).contains(t.id));
                    assert(covered(*map, map.lanes@.len() as int, t.id));
                    let w = choose|w: int|
                        0 <= w < map.turns@.len() && (#[trigger] map.turns@[w]).src_lane
                            < map.lanes@.len() && map.turns@[w].id == t.id;
                    assert(turn_ids(map.turns@)[w] == t.id);
                    assert(turn_ids(map.turns@)[i as int] == t.id);
                    assert(w == i);
                    let l = t.src_lane;
                    let f = lane_turns(*map, l);
                    map.turns@.lemma_filter_contains(crate::map_data::from_lane_pred(l), i as int);
                    assert(f.contains(t));
                    let k = choose|k: int| 0 <= k < f.len() && f[k] == t;
                    assert(slots_ok(f, map.lanes@[l as int], assoc_map(table@)));
                    assert((assoc_map(table@)[f[k].id] as int) < count_group(
                        f,
                        map.lanes@[l as int],
                        in_dst_group(f[k], map.lanes@[l as int]),
                    ));
                    lemma_count_group_le(f, map.lanes@[l as int]);
                    map.turns@.lemma_filter_len(crate::map_data::from_lane_pred(l));
                    assert(slot <= crate::map_data::TURN_CAP);
                }
                let dt = DrawTurn::new(&t, slot);
                ts.push((t.id, dt));
            },
        }
        i += 1;
    }
    proof {
        let tsv = ts@;
        assert forall|j: int| 0 <= j < map.turns@.len() implies (#[trigger] map.turns@[j]).src_lane
            < map.lanes@.len() by {
            assert(ts@[j].0 == map.turns@[j].id);
        }
        assert(assoc_keys(tsv) =~= turn_ids(map.turns@));
        lemma_assoc_map_values(tsv);
        lemma_assoc_map_membership(tsv);
        let mapped = tsv.map_values(|e: (u64, DrawTurn)| (e.0, e.1.slot));
        assert(assoc_keys(mapped) =~= assoc_keys(tsv));
        lemma_assoc_map_values(mapped);
        lemma_assoc_map_membership(mapped);
        assert forall|j: int| 0 <= j < map.turns@.len() implies {
            let t = #[trigger] map.turns@[j];
            let a = assoc_map(tsv);
            &&& a.contains_key(t.id)
            &&& a[t.id] == spec_draw_turn(t, a[t.id].slot)
            &&& a[t.id].wf()
            &&& turn_slot_map(tsv).contains_key(t.id)
            &&& turn_slot_map(tsv)[t.id] == a[t.id].slot
        } by {
            assert(tsv[j].0 == map.turns@[j].id);
            assert(assoc_map(tsv)[tsv[j].0] == tsv[j].1);
            assert(mapped[j] == (tsv[j].0, tsv[j].1.slot));
            assert(assoc_map(mapped)[mapped[j].0] == mapped[j].1);
        }
        assert forall|l: int| 0 <= l < map.lanes@.len() implies slots_ok(
            lane_turns(*map, l as u64),
            #[trigger] map.lanes@[l],
            turn_slot_map(tsv),
        ) by {
            let f = lane_turns(*map, l as u64);
            assert forall|k: int| 0 <= k < f.len() implies turn_slot_map(tsv).contains_key(
                (#[trigger] f[k]).id,
            ) && turn_slot_map(tsv)[f[k].id] == assoc_map(table@)[f[k].id] by {
                lemma_filter_element(map.turns@, crate::map_data::from_lane_pred(l as u64), k);
                assert(map.turns@.contains(f[k]));
                let j = choose|j: int| 0 <= j < map.turns@.len() && map.turns@[j] == f[k];
                assert(tsv[j].0 == f[k].id);
                assert(tsv[j].1.slot == assoc_map(table@)[f[k].id]);
                assert(mapped[j] == (f[k].id, tsv[j].1.slot));
                assert(assoc_map(mapped)[f[k].id] == mapped[j].1);
                assert(assoc_keys(mapped)[j] == f[k].id);
            }
            lemma_slots_ok_agree(f, map.lanes@[l], assoc_map(table@), turn_slot_map(tsv));
        }
    }
    Ok(ts)
}


/// The scene index: drawable storage and one spatial index per category, the
/// computed scene rectangle, and the count of degenerate objects skipped
/// during the build.
pub struct DrawMap {
    pub lanes: Vec<Option<DrawLane>>,
    pub intersections: Vec<Option<DrawIntersection>>,
    pub turns: Vec<(u64, DrawTurn)>,
    pub buildings: Vec<Option<DrawBuilding>>,
    pub parcels: Vec<Option<DrawParcel>>,
    pub extra_shapes: Vec<Option<DrawExtraShape>>,
    pub scene_bounds: BBox,
    pub skipped: usize,
    pub lanes_index: CategoryIndex,
    pub intersections_index: CategoryIndex,
    pub buildings_index: CategoryIndex,
    pub parcels_index: CategoryIndex,
    pub extra_shapes_index: CategoryIndex,
}

/// The scene was built from this map and these annotation shapes.
pub open spec fn built_from(d: DrawMap, m: MapData, shapes: Seq<ExtraShapeIn>) -> bool {
    &&& lanes_built(d.lanes@, m.lanes@)
    &&& intersections_built(d.intersections@, m, d.lanes@)
    &&& turns_built(d.turns@, m)
    &&& buildings_built(d.buildings@, m.buildings@)
    &&& parcels_built(d.parcels@, m.parcels@)
    &&& shapes_built(d.extra_shapes@, shapes)
    &&& d.skipped as int == (m.lanes@.len() - count_live(d.lanes@)) + (m.intersections@.len()
        - count_live(d.intersections@)) + (m.buildings@.len() - count_live(d.buildings@)) + (
    m.parcels@.len() - count_live(d.parcels@)) + (shapes.len() - count_live(d.extra_shapes@))
    &&& bbox_contains(d.scene_bounds, m.bounds)
}

impl DrawMap {
    /// The structural invariant: each category's storage and index agree,
    /// every indexed box lies within the scene rectangle, and stored turn
    /// identifiers are distinct.
    pub open spec fn wf(&self) -> bool {
        &&& self.lanes_index.wf()
        &&& self.intersections_index.wf()
        &&& self.buildings_index.wf()
        &&& self.parcels_index.wf()
        &&& self.extra_shapes_index.wf()
        &&& category_consistent(self.lanes@, self.lanes_index@, self.scene_bounds)
        &&& category_consistent(
            self.intersections@,
            self.intersections_index@,
            self.scene_bounds,
        )
        &&& category_consistent(self.buildings@, self.buildings_index@, self.scene_bounds)
        &&& category_consistent(self.parcels@, self.parcels_index@, self.scene_bounds)
        &&& category_consistent(self.extra_shapes@, self.extra_shapes_index@, self.scene_bounds)
        &&& assoc_keys(self.turns@).no_duplicates()
        &&& bbox_wf(self.scene_bounds)
    }

    /// Builds the whole scene: derives every category's drawables (skipping
    /// and counting degenerate objects), resolves every turn's icon slot,
    /// sizes the scene rectangle over everything drawn, and fills one
    /// spatial index per category. Also returns the scene rectangle's
    /// midpoint for camera initialization. Aborts, instead of building a
    /// wrong scene, exactly when the map's topology is inconsistent.
    pub fn new(map: &MapData, raw_extra_shapes: Vec<ExtraShapeIn>) -> (r: Result<
        (DrawMap, Pt),
        BuildError,
    >)
        requires
            map_geom_wf(*map),
            forall|i: int|
                0 <= i < raw_extra_shapes@.len() ==> crate::map_data::extra_shape_geom_ok(
                    #[trigger] raw_extra_shapes@[i],
                ),
            raw_extra_shapes@.len() <= crate::map_data::OBJECT_CAP,
        ensures
            r is Ok <==> map_topology_wf(*map),
            match r {
                Ok((d, center)) => {
                    &&& d.wf()
                    &&& built_from(d, *map, raw_extra_shapes@)
                    &&& d.scene_bounds == extend_over_storage(
                        extend_over_storage(
                            extend_over_storage(
                                extend_over_storage(
                                    extend_over_storage(map.bounds, d.lanes@),
                                    d.intersections@,
                                ),
                                d.buildings@,
                            ),
                            d.parcels@,
                        ),
                        d.extra_shapes@,
                    )
                    &&& center.x == d.scene_bounds.min_x + (d.scene_bounds.max_x
                        - d.scene_bounds.min_x) / 2
                    &&& center.y == d.scene_bounds.min_y + (d.scene_bounds.max_y
                        - d.scene_bounds.min_y) / 2
                },
                Err(e) => e == BuildError::TopologyMismatch,
            },
    {
        let ghost shapes_seq = raw_extra_shapes@;
        if !turn_ids_unique(&map.turns) {
            return Err(BuildError::TopologyMismatch);
        }
        let (lanes, sk_l) = build_lanes(map);
        let table = build_turn_table(map);
        // The exact-coverage assertion: one resolved slot per map turn.
        if table.len() != map.turns.len() {
            proof {
                lemma_topology_gives_full_table(*map, table@);
            }
            return Err(BuildError::TopologyMismatch);
        }
        let turns = match build_turns(map, &table) {
            Ok(ts) => ts,
            Err(e) => {
                return Err(e);
            },
        };
        let (intersections, sk_i) = build_intersections(map, &lanes);
        let (buildings, sk_b) = build_buildings(map);
        let (parcels, sk_p) = build_parcels(map);
        let (extra_shapes, sk_e) = build_shapes(raw_extra_shapes);
        let (lane_entries, b1) = collect_entries(&lanes, &map.bounds);
        let (inter_entries, b2) = collect_entries(&intersections, &b1);
        let (building_entries, b3) = collect_entries(&buildings, &b2);
        let (parcel_entries, b4) = collect_entries(&parcels, &b3);
        let (shape_entries, scene_bounds) = collect_entries(&extra_shapes, &b4);
        let ghost e1 = assoc_map(lane_entries@);
        let ghost e2 = assoc_map(inter_entries@);
        let ghost e3 = assoc_map(building_entries@);
        let ghost e4 = assoc_map(parcel_entries@);
        let ghost e5 = assoc_map(shape_entries@);
        let lanes_index = CategoryIndex::build(scene_bounds, lane_entries);
        let intersections_index = CategoryIndex::build(scene_bounds, inter_entries);
        let buildings_index = CategoryIndex::build(scene_bounds, building_entries);
        let parcels_index = CategoryIndex::build(scene_bounds, parcel_entries);
        let extra_shapes_index = CategoryIndex::build(scene_bounds, shape_entries);
        proof {
            lemma_count_live_bounds(lanes@);
            lemma_count_live_bounds(intersections@);
            lemma_count_live_bounds(buildings@);
            lemma_count_live_bounds(parcels@);
            lemma_count_live_bounds(extra_shapes@);
        }
        let skipped = sk_l + sk_i + sk_b + sk_p + sk_e;
        let center = scene_bounds.center();
        let d = DrawMap {
            lanes,
            intersections,
            turns,
            buildings,
            parcels,
            extra_shapes,
            scene_bounds,
            skipped,
            lanes_index,
            intersections_index,
            buildings_index,
            parcels_index,
            extra_shapes_index,
        };
        proof {
            assert(bbox_contains(scene_bounds, map.bounds));
            assert forall|id: u64| #[trigger] e1.contains_key(id) implies bbox_contains(
                scene_bounds,
                e1[id],
            ) by {
                assert(bbox_contains(b1, e1[id]));
            }
            assert forall|id: u64| #[trigger] e2.contains_key(id) implies bbox_contains(
                scene_bounds,
                e2[id],
            ) by {
                assert(bbox_contains(b2, e2[id]));
            }
            assert forall|id: u64| #[trigger] e3.contains_key(id) implies bbox_contains(
                scene_bounds,
                e3[id],
            ) by {
                assert(bbox_contains(b3, e3[id]));
            }
            assert forall|id: u64| #[trigger] e4.contains_key(id) implies bbox_contains(
                scene_bounds,
                e4[id],
            ) by {
                assert(bbox_contains(b4, e4[id]));
            }
        }
        Ok((d, center))
    }
}

/// With a consistent topology, the slot table covers exactly the map's
/// turns, so it is exactly as long as the turn list.
proof fn lemma_topology_gives_full_table(m: MapData, table: Seq<(u64, usize)>)
    requires
        turn_ids(m.turns@).no_duplicates(),
        assoc_keys(table).no_duplicates(),
        (forall|id: u64|
            #[trigger] assoc_keys(table).contains(id) <==> covered(
                m,
                m.lanes@.len() as int,
                id,
            )),
    ensures
        (map_topology_wf(m) ==> table.len() == m.turns@.len()),
{
    if map_topology_wf(m) {
        let keys = assoc_keys(table);
        let ids = turn_ids(m.turns@);
        assert forall|id: u64| #[trigger] keys.contains(id) implies ids.contains(id) by {
            let i = choose|i: int|
                0 <= i < m.turns@.len() && (#[trigger] m.turns@[i]).src_lane < m.lanes@.len()
                    && m.turns@[i].id == id;
            assert(ids[i] == id);
        }
        assert forall|id: u64| #[trigger] ids.contains(id) implies keys.contains(id) by {
            let i = choose|i: int| 0 <= i < ids.len() && ids[i] == id;
            assert(m.turns@[i].id == id);
            assert(covered(m, m.lanes@.len() as int, id)) by {
                assert(0 <= i < m.turns@.len() && m.turns@[i].src_lane < m.lanes@.len()
                    && m.turns@[i].id == id);
            }
        }
        assert(keys.to_set() =~= ids.to_set());
        keys.unique_seq_to_set();
        ids.unique_seq_to_set();
    }
}


/// Keeps the identifiers of a query result that a hidden-identifier list
/// does not name.
fn filter_visible(q: Vec<u64>, hidden: &Vec<u64>) -> (r: Vec<u64>)
    requires
        q@.no_duplicates(),
    ensures
        r@.no_duplicates(),
        r@.to_set() == q@.to_set().filter(|id: u64| !hidden@.contains(id)),
{
    let mut v: Vec<u64> = Vec::new();
    let mut i: usize = 0;
    while i < q.len()
        invariant
            0 <= i <= q@.len(),
            q@.no_duplicates(),
            v@.no_duplicates(),
            forall|id: u64|
                #[trigger] v@.contains(id) <==> (exists|j: int|
                    0 <= j < i && #[trigger] q@[j] == id && !hidden@.contains(id)),
        decreases q@.len() - i,
    {
        let ghost v_old = v@;
        let x = q[i];
        if !crate::hider::contains_id(hidden, x) {
            proof {
                assert(!v@.contains(x)) by {
                    if v@.contains(x) {
                        let j = choose|j: int|
                            0 <= j < i && #[trigger] q@[j] == x && !hidden@.contains(x);
                        assert(q@[j] == q@[i as int]);
                    }
                }
            }
            v.push(x);
        }
        proof {
            assert forall|id: u64| #[trigger] v@.contains(id) implies (exists|j: int|
                0 <= j < i + 1 && #[trigger] q@[j] == id && !hidden@.contains(id)) by {
                if v_old.contains(id) {
                    let j = choose|j: int|
                        0 <= j < i && #[trigger] q@[j] == id && !hidden@.contains(id);
                    assert(0 <= j < i + 1 && q@[j] == id && !hidden@.contains(id));
                } else {
                    assert(v@ == v_old.push(x));
                    let k = choose|k: int| 0 <= k < v@.len() && v@[k] == id;
                    assert(id == x);
                    assert(0 <= i < i + 1 && q@[i as int] == id && !hidden@.contains(id));
                }
            }
            assert forall|id: u64|
                (exists|j: int| 0 <= j < i + 1 && #[trigger] q@[j] == id && !hidden@.contains(id))
                implies v@.contains(id) by {
                let j = choose|j: int|
                    0 <= j < i + 1 && #[trigger] q@[j] == id && !hidden@.contains(id);
                if j < i {
                    assert(v_old.contains(id));
                    let k = choose|k: int| 0 <= k < v_old.len() && v_old[k] == id;
                    assert(v@[k] == id);
                } else {
                    assert(v@.last() == id);
                }
            }
        }
        i += 1;
    }
    proof {
        assert(v@.to_set() =~= q@.to_set().filter(|id: u64| !hidden@.contains(id))) by {
            assert forall|id: u64| #[trigger] v@.contains(id) implies q@.to_set().filter(
                |id2: u64| !hidden@.contains(id2),
            ).contains(id) by {
                let j = choose|j: int|
                    0 <= j < q@.len() && #[trigger] q@[j] == id && !hidden@.contains(id);
                assert(q@.contains(id));
            }
            assert forall|id: u64| q@.to_set().filter(|id2: u64| !hidden@.contains(id2)).contains(
                id,
            ) implies #[trigger] v@.contains(id) by {
                assert(q@.contains(id));
                let j = choose|j: int| 0 <= j < q@.len() && q@[j] == id;
                assert(0 <= j < q@.len() && q@[j] == id && !hidden@.contains(id));
            }
        }
    }
    v
}

impl DrawMap {
    /// The lane drawable with this identifier, or nothing when the
    /// identifier is out of range or the lane was skipped.
    pub fn get_l(&self, id: u64) -> (r: Option<&DrawLane>)
        ensures
            match r {
                Some(d) => id < self.lanes@.len() && self.lanes@[id as int] == Some(*d),
                None => !(id < self.lanes@.len() && self.lanes@[id as int] is Some),
            },
    {
        if id < (self.lanes.len() as u64) {
            self.lanes[id as usize].as_ref()
        } else {
            None
        }
    }

    /// The intersection drawable with this identifier, if live.
    pub fn get_i(&self, id: u64) -> (r: Option<&DrawIntersection>)
        ensures
            match r {
                Some(d) => id < self.intersections@.len() && self.intersections@[id as int]
                    == Some(*d),
                None => !(id < self.intersections@.len() && self.intersections@[id as int]
                    is Some),
            },
    {
        if id < (self.intersections.len() as u64) {
            self.intersections[id as usize].as_ref()
        } else {
            None
        }
    }

    /// The turn drawable with this identifier, if stored.
    pub fn get_t(&self, id: u64) -> (r: Option<&DrawTurn>)
        requires
            self.wf(),
        ensures
            match r {
                Some(d) => assoc_map(self.turns@).contains_key(id) && *d == assoc_map(
                    self.turns@,
                )[id],
                None => !assoc_map(self.turns@).contains_key(id),
            },
    {
        proof {
            lemma_assoc_map_membership(self.turns@);
            lemma_assoc_map_values(self.turns@);
        }
        let mut i: usize = 0;
        while i < self.turns.len()
            invariant
                0 <= i <= self.turns@.len(),
                forall|j: int| 0 <= j < i ==> (#[trigger] self.turns@[j]).0 != id,
                assoc_keys(self.turns@).no_duplicates(),
            decreases self.turns@.len() - i,
        {
            if self.turns[i].0 == id {
                proof {
                    lemma_assoc_map_membership(self.turns@);
                    lemma_assoc_map_values(self.turns@);
                    assert(assoc_keys(self.turns@)[i as int] == id);
                }
                return Some(&self.turns[i].1);
            }
            i += 1;
        }
        proof {
            assert(!assoc_keys(self.turns@).contains(id)) by {
                if assoc_keys(self.turns@).contains(id) {
                    let j = choose|j: int|
                        0 <= j < assoc_keys(self.turns@).len() && assoc_keys(self.turns@)[j] == id;
                    assert(self.turns@[j].0 == id);
                }
            }
        }
        None
    }

    /// The building drawable with this identifier, if live.
    pub fn get_b(&self, id: u64) -> (r: Option<&DrawBuilding>)
        ensures
            match r {
                Some(d) => id < self.buildings@.len() && self.buildings@[id as int] == Some(*d),
                None => !(id < self.buildings@.len() && self.buildings@[id as int] is Some),
            },
    {
        if id < (self.buildings.len() as u64) {
            self.buildings[id as usize].as_ref()
        } else {
            None
        }
    }

    /// The parcel drawable with this identifier, if live.
    pub fn get_p(&self, id: u64) -> (r: Option<&DrawParcel>)
        ensures
            match r {
                Some(d) => id < self.parcels@.len() && self.parcels@[id as int] == Some(*d),
                None => !(id < self.parcels@.len() && self.parcels@[id as int] is Some),
            },
    {
        if id < (self.parcels.len() as u64) {
            self.parcels[id as usize].as_ref()
        } else {
            None
        }
    }

    /// The annotation drawable with this identifier, if live.
    pub fn get_es(&self, id: u64) -> (r: Option<&DrawExtraShape>)
        ensures
            match r {
                Some(d) => id < self.extra_shapes@.len() && self.extra_shapes@[id as int] == Some(
                    *d,
                ),
                None => !(id < self.extra_shapes@.len() && self.extra_shapes@[id as int] is Some),
            },
    {
        if id < (self.extra_shapes.len() as u64) {
            self.extra_shapes[id as usize].as_ref()
        } else {
            None
        }
    }

    /// The visible lanes whose boxes meet the viewport: every indexed lane
    /// whose box intersects the rectangle and that the filter shows, exactly
    /// once.
    pub fn get_loads_onscreen(&self, screen_bbox: BBox, hider: &crate::hider::Hider) -> (r: Vec<
        u64,
    >)
        requires
            self.wf(),
        ensures
            r@.no_duplicates(),
            r@.to_set() == crate::category_index::query_set(self.lanes_index@, screen_bbox).filter(
                |id: u64| hider.spec_show_l(id),
            ),
    {
        let q = self.lanes_index.query(&screen_bbox);
        let r = filter_visible(q, &hider.hidden_lanes);
        proof {
            assert(r@.to_set() =~= crate::category_index::query_set(
                self.lanes_index@,
                screen_bbox,
            ).filter(|id: u64| hider.spec_show_l(id)));
        }
        r
    }

    /// The visible intersections whose boxes meet the viewport.
    pub fn get_intersections_onscreen(
        &self,
        screen_bbox: BBox,
        hider: &crate::hider::Hider,
    ) -> (r: Vec<u64>)
        requires
            self.wf(),
        ensures
            r@.no_duplicates(),
            r@.to_set() == crate::category_index::query_set(
                self.intersections_index@,
                screen_bbox,
            ).filter(|id: u64| hider.spec_show_i(id)),
    {
        let q = self.intersections_index.query(&screen_bbox);
        let r = filter_visible(q, &hider.hidden_intersections);
        proof {
            assert(r@.to_set() =~= crate::category_index::query_set(
                self.intersections_index@,
                screen_bbox,
            ).filter(|id: u64| hider.spec_show_i(id)));
        }
        r
    }

    /// The visible buildings whose boxes meet the viewport.
    pub fn get_buildings_onscreen(&self, screen_bbox: BBox, hider: &crate::hider::Hider) -> (r: Vec<
        u64,
    >)
        requires
            self.wf(),
        ensures
            r@.no_duplicates(),
            r@.to_set() == crate::category_index::query_set(
                self.buildings_index@,
                screen_bbox,
            ).filter(|id: u64| hider.spec_show_b(id)),
    {
        let q = self.buildings_index.query(&screen_bbox);
        let r = filter_visible(q, &hider.hidden_buildings);
        proof {
            assert(r@.to_set() =~= crate::category_index::query_set(
                self.buildings_index@,
                screen_bbox,
            ).filter(|id: u64| hider.spec_show_b(id)));
        }
        r
    }

    /// The parcels whose boxes meet the viewport; parcels have no
    /// visibility toggle.
    pub fn get_parcels_onscreen(&self, screen_bbox: BBox) -> (r: Vec<u64>)
        requires
            self.wf(),
        ensures
            r@.no_duplicates(),
            r@.to_set() == crate::category_index::query_set(self.parcels_index@, screen_bbox),
    {
        self.parcels_index.query(&screen_bbox)
    }

    /// The visible annotation shapes whose boxes meet the viewport.
    pub fn get_extra_shapes_onscreen(
        &self,
        screen_bbox: BBox,
        hider: &crate::hider::Hider,
    ) -> (r: Vec<u64>)
        requires
            self.wf(),
        ensures
            r@.no_duplicates(),
            r@.to_set() == crate::category_index::query_set(
                self.extra_shapes_index@,
                screen_bbox,
            ).filter(|id: u64| hider.spec_show_es(id)),
    {
        let q = self.extra_shapes_index.query(&screen_bbox);
        let r = filter_visible(q, &hider.hidden_extra_shapes);
        proof {
            assert(r@.to_set() =~= crate::category_index::query_set(
                self.extra_shapes_index@,
                screen_bbox,
            ).filter(|id: u64| hider.spec_show_es(id)));
        }
        r
    }

    /// Deletes a turn's drawable. Other turns keep their slots untouched;
    /// the gap this leaves in a group's numbering is accepted.
    pub fn edit_remove_turn(&mut self, id: u64)
        requires
            old(self).wf(),
        ensures
            final(self).wf(),
            assoc_map(final(self).turns@) == assoc_map(old(self).turns@).remove(id),
            final(self).lanes == old(self).lanes,
            final(self).intersections == old(self).intersections,
            final(self).buildings == old(self).buildings,
            final(self).parcels == old(self).parcels,
            final(self).extra_shapes == old(self).extra_shapes,
            final(self).scene_bounds == old(self).scene_bounds,
            final(self).skipped == old(self).skipped,
            final(self).lanes_index == old(self).lanes_index,
            final(self).intersections_index == old(self).intersections_index,
            final(self).buildings_index == old(self).buildings_index,
            final(self).parcels_index == old(self).parcels_index,
            final(self).extra_shapes_index == old(self).extra_shapes_index,
    {
        proof {
            lemma_assoc_map_membership(self.turns@);
            lemma_assoc_map_values(self.turns@);
        }
        let mut i: usize = 0;
        while i < self.turns.len()
            invariant
                0 <= i <= self.turns@.len(),
                forall|j: int| 0 <= j < i ==> (#[trigger] self.turns@[j]).0 != id,
                *self == *old(self),
                old(self).wf(),
            decreases self.turns@.len() - i,
        {
            if self.turns[i].0 == id {
                proof {
                    crate::assoc::lemma_assoc_map_remove(self.turns@, i as int);
                    assert(assoc_keys(self.turns@)[i as int] == id);
                }
                self.turns.remove(i);
                return ;
            }
            i += 1;
        }
        proof {
            assert(!assoc_keys(self.turns@).contains(id)) by {
                if assoc_keys(self.turns@).contains(id) {
                    let j = choose|j: int|
                        0 <= j < assoc_keys(self.turns@).len() && assoc_keys(self.turns@)[j] == id;
                    assert(self.turns@[j].0 == id);
                }
            }
            lemma_assoc_map_membership(self.turns@);
            assert(assoc_map(self.turns@).remove(id) =~= assoc_map(self.turns@));
        }
    }
}

/// Why an incremental edit was refused.
#[derive(Clone, Copy, PartialEq, Eq, Structural, Debug)]
pub enum EditError {
    NotFound,
    Degenerate,
    BoundsChanged,
}

impl DrawMap {
    /// Re-derives one lane's drawable after a lane-type edit and replaces it
    /// in storage. A lane-type edit is assumed never to move the lane's
    /// bounding box; an edit that would is refused instead of leaving the
    /// spatial index stale.
    pub fn edit_lane_type(&mut self, id: u64, map: &MapData) -> (r: Result<(), EditError>)
        requires
            old(self).wf(),
            map_geom_wf(*map),
        ensures
            final(self).wf(),
            final(self).turns == old(self).turns,
            final(self).intersections == old(self).intersections,
            final(self).buildings == old(self).buildings,
            final(self).parcels == old(self).parcels,
            final(self).extra_shapes == old(self).extra_shapes,
            final(self).scene_bounds == old(self).scene_bounds,
            final(self).skipped == old(self).skipped,
            final(self).lanes_index == old(self).lanes_index,
            final(self).intersections_index == old(self).intersections_index,
            final(self).buildings_index == old(self).buildings_index,
            final(self).parcels_index == old(self).parcels_index,
            final(self).extra_shapes_index == old(self).extra_shapes_index,
            match r {
                Ok(()) => {
                    let lane = map.lanes@[id as int];
                    let d = final(self).lanes@[id as int]->Some_0;
                    &&& id < old(self).lanes@.len()
                    &&& id < map.lanes@.len()
                    &&& old(self).lanes@[id as int] is Some
                    &&& !lane_degenerate(lane)
                    &&& final(self).lanes@ == old(self).lanes@.update(id as int, Some(d))
                    &&& d.wf()
                    &&& d.id == id
                    &&& d.lane_type == lane.lane_type
                    &&& d.polygon.points@ == band_polygon(lane.centerline@, lane.width)
                    &&& d.bbox == old(self).lanes@[id as int]->Some_0.bbox
                },
                Err(EditError::NotFound) => *final(self) == *old(self) && !(id < old(
                    self,
                ).lanes@.len() && id < map.lanes@.len() && old(self).lanes@[id as int] is Some),
                Err(EditError::Degenerate) => {
                    &&& *final(self) == *old(self)
                    &&& id < old(self).lanes@.len() && id < map.lanes@.len()
                    &&& old(self).lanes@[id as int] is Some
                    &&& lane_degenerate(map.lanes@[id as int])
                },
                Err(EditError::BoundsChanged) => {
                    &&& *final(self) == *old(self)
                    &&& id < old(self).lanes@.len() && id < map.lanes@.len()
                    &&& old(self).lanes@[id as int] is Some
                    &&& !lane_degenerate(map.lanes@[id as int])
                    &&& crate::geometry::spec_extent(
                        band_polygon(
                            map.lanes@[id as int].centerline@,
                            map.lanes@[id as int].width,
                        ),
                    ) != old(self).lanes@[id as int]->Some_0.bbox
                },
            },
    {
        if !(id < (self.lanes.len() as u64) && id < (map.lanes.len() as u64)) {
            return Err(EditError::NotFound);
        }
        let i = id as usize;
        if self.lanes[i].is_none() {
            return Err(EditError::NotFound);
        }
        let d = match DrawLane::new(id, &map.lanes[i]) {
            Some(d) => d,
            None => {
                return Err(EditError::Degenerate);
            },
        };
        let old_bbox = match &self.lanes[i] {
            Some(od) => od.bbox,
            None => {
                proof {
                    assert(false);
                }
                d.bbox
            },
        };
        if !(d.bbox == old_bbox) {
            return Err(EditError::BoundsChanged);
        }
        let ghost lanes_before = self.lanes@;
        self.lanes.remove(i);
        self.lanes.insert(i, Some(d));
        proof {
            assert(self.lanes@ =~= lanes_before.update(i as int, Some(d)));
            assert forall|oid: u64| #[trigger] self.lanes_index@.contains_key(oid) implies (oid
                < self.lanes@.len() && self.lanes@[oid as int] is Some && self.lanes_index@[oid]
                == self.lanes@[oid as int]->Some_0.bbox_spec()
                && self.lanes@[oid as int]->Some_0.id_spec() == oid) by {
                if oid != id {
                    assert(self.lanes@[oid as int] == lanes_before[oid as int]);
                }
            }
            assert forall|oid: u64|
                oid < self.lanes@.len() && self.lanes@[oid as int] is Some implies #[trigger] self
                .lanes_index@.contains_key(oid) by {
                if oid != id {
                    assert(lanes_before[oid as int] is Some);
                }
            }
        }
        Ok(())
    }

    /// Adds (or replaces) one turn's drawable. The affected lane's slots
    /// are re-resolved from scratch and applied: the new turn is inserted
    /// and the lane's other stored turn drawables are rebuilt with their
    /// freshly recomputed slots, since an insertion can shift the ordering.
    /// Turns of other lanes are untouched.
    pub fn edit_add_turn(&mut self, id: u64, map: &MapData)
        requires
            old(self).wf(),
            map_geom_wf(*map),
            turn_ids(map.turns@).no_duplicates(),
            exists|i: int|
                0 <= i < map.turns@.len() && (#[trigger] map.turns@[i]).id == id
                    && map.turns@[i].src_lane < map.lanes@.len(),
        ensures
            final(self).wf(),
            final(self).lanes == old(self).lanes,
            final(self).intersections == old(self).intersections,
            final(self).buildings == old(self).buildings,
            final(self).parcels == old(self).parcels,
            final(self).extra_shapes == old(self).extra_shapes,
            final(self).scene_bounds == old(self).scene_bounds,
            final(self).skipped == old(self).skipped,
            final(self).lanes_index == old(self).lanes_index,
            final(self).intersections_index == old(self).intersections_index,
            final(self).buildings_index == old(self).buildings_index,
            final(self).parcels_index == old(self).parcels_index,
            final(self).extra_shapes_index == old(self).extra_shapes_index,
            ({
                let t = crate::map_data::find_turn(*map, id);
                let f = lane_turns(*map, t.src_lane);
                let a_old = assoc_map(old(self).turns@);
                let a_new = assoc_map(final(self).turns@);
                &&& (forall|tid: u64|
                    #[trigger] a_new.contains_key(tid) <==> (a_old.contains_key(tid) || tid == id))
                &&& (exists|tbl: Seq<(u64, usize)>|
                    {
                        &&& #[trigger] resolved(f, map.lanes@[t.src_lane as int], tbl)
                        &&& forall|j: int|
                            0 <= j < f.len() && ((#[trigger] f[j]).id == id || a_old.contains_key(
                                f[j].id,
                            )) ==> a_new.contains_key(f[j].id) && a_new[f[j].id] == spec_draw_turn(
                                f[j],
                                assoc_map(tbl)[f[j].id],
                            )
                    })
                &&& (forall|tid: u64|
                    #[trigger] a_old.contains_key(tid) && !turn_ids(f).contains(tid)
                        ==> a_new.contains_key(tid) && a_new[tid] == a_old[tid])
            }),
    {
        let t = match map.get_t(id) {
            Some(t) => t,
            None => {
                proof {
                    let w = choose|i: int|
                        0 <= i < map.turns@.len() && (#[trigger] map.turns@[i]).id == id
                            && map.turns@[i].src_lane < map.lanes@.len();
                    assert(turn_ids(map.turns@)[w] == id);
                    assert(false);
                }
                return ;
            },
        };
        proof {
            let w = choose|i: int|
                0 <= i < map.turns@.len() && (#[trigger] map.turns@[i]).id == id
                    && map.turns@[i].src_lane < map.lanes@.len();
            let j = choose|j: int| 0 <= j < map.turns@.len() && map.turns@[j] == t;
            assert(turn_ids(map.turns@)[w] == id);
            assert(turn_ids(map.turns@)[j] == id);
            assert(t == map.turns@[w]);
            let c = choose|i: int|
                0 <= i < map.turns@.len() && (#[trigger] map.turns@[i]).id == id;
            assert(turn_ids(map.turns@)[c] == id);
            assert(crate::map_data::find_turn(*map, id) == t);
        }
        let mut table: Vec<(u64, usize)> = Vec::new();
        compute_turn_to_lane_offset(&mut table, t.src_lane as usize, map);
        let ghost tbl = table@;
        let ghost f = lane_turns(*map, t.src_lane);
        let ghost lane = map.lanes@[t.src_lane as int];
        let ghost a_old = assoc_map(old(self).turns@);
        proof {
            assert(tbl.take(0) =~= Seq::<(u64, usize)>::empty());
            assert(tbl.subrange(0, tbl.len() as int) =~= tbl);
            assert(resolved(f, lane, tbl));
            lemma_assoc_map_membership(tbl);
            lemma_assoc_map_values(tbl);
            lemma_assoc_map_membership(old(self).turns@);
            lemma_count_group_le(f, lane);
            map.turns@.lemma_filter_len(crate::map_data::from_lane_pred(t.src_lane));
        }
        let n = table.len();
        let mut k: usize = 0;
        while k < n
            invariant
                0 <= k <= tbl.len(),
                n == tbl.len(),
                table@ == tbl,
                t == crate::map_data::find_turn(*map, id),
                t.id == id,
                t.src_lane < map.lanes@.len(),
                f == lane_turns(*map, t.src_lane),
                lane == map.lanes@[t.src_lane as int],
                map_geom_wf(*map),
                turn_ids(map.turns@).no_duplicates(),
                resolved(f, lane, tbl),
                a_old == assoc_map(old(self).turns@),
                self.wf(),
                self.lanes == old(self).lanes,
                self.intersections == old(self).intersections,
                self.buildings == old(self).buildings,
                self.parcels == old(self).parcels,
                self.extra_shapes == old(self).extra_shapes,
                self.scene_bounds == old(self).scene_bounds,
                self.skipped == old(self).skipped,
                self.lanes_index == old(self).lanes_index,
                self.intersections_index == old(self).intersections_index,
                self.buildings_index == old(self).buildings_index,
                self.parcels_index == old(self).parcels_index,
                self.extra_shapes_index == old(self).extra_shapes_index,
                forall|tid: u64|
                    #[trigger] assoc_map(self.turns@).contains_key(tid) <==> (a_old.contains_key(
                        tid,
                    ) || (tid == id && assoc_keys(tbl).take(k as int).contains(id))),
                forall|j: int|
                    0 <= j < k && ((#[trigger] tbl[j]).0 == id || a_old.contains_key(tbl[j].0))
                        ==> assoc_map(self.turns@).contains_key(tbl[j].0) && assoc_map(
                        self.turns@,
                    )[tbl[j].0] == spec_draw_turn(
                        crate::map_data::find_turn(*map, tbl[j].0),
                        tbl[j].1,
                    ),
                forall|tid: u64|
                    #[trigger] a_old.contains_key(tid) && !assoc_keys(tbl).take(
                        k as int,
                    ).contains(tid) ==> assoc_map(self.turns@).contains_key(tid) && assoc_map(
                        self.turns@,
                    )[tid] == a_old[tid],
            decreases tbl.len() - k,
        {
            let e = table[k];
            let tid = e.0;
            let slot = e.1;
            proof {
                lemma_assoc_map_membership(tbl);
                lemma_assoc_map_values(tbl);
                assert(assoc_keys(tbl)[k as int] == tid);
                assert(assoc_keys(tbl).contains(tid));
                assert(turn_ids(f).contains(tid));
                assert(assoc_map(tbl)[tid] == slot);
                let p = choose|p: int| 0 <= p < turn_ids(f).len() && turn_ids(f)[p] == tid;
                assert(f[p].id == tid);
                lemma_filter_element(map.turns@, crate::map_data::from_lane_pred(t.src_lane), p);
                assert(map.turns@.contains(f[p]));
                let w = choose|w: int| 0 <= w < map.turns@.len() && map.turns@[w] == f[p];
                assert(turn_ids(map.turns@)[w] == tid);
                // The fresh slot is below the group size, so it fits a drawable.
                lemma_count_group_le(f, lane);
                map.turns@.lemma_filter_len(crate::map_data::from_lane_pred(t.src_lane));
                assert((assoc_map(tbl)[f[p].id] as int) < count_group(
                    f,
                    lane,
                    in_dst_group(f[p], lane),
                ));
                assert(slot <= crate::map_data::TURN_CAP);
            }
            let u = match map.get_t(tid) {
                Some(u) => u,
                None => {
                    proof {
                        assert(false);
                    }
                    return ;
                },
            };
            proof {
                let p = choose|p: int| 0 <= p < turn_ids(f).len() && turn_ids(f)[p] == tid;
                lemma_filter_element(map.turns@, crate::map_data::from_lane_pred(t.src_lane), p);
                let w = choose|w: int| 0 <= w < map.turns@.len() && map.turns@[w] == f[p];
                let ju = choose|ju: int| 0 <= ju < map.turns@.len() && map.turns@[ju] == u;
                assert(turn_ids(map.turns@)[w] == tid);
                assert(turn_ids(map.turns@)[ju] == tid);
                assert(u == f[p]);
                let c = choose|i: int|
                    0 <= i < map.turns@.len() && (#[trigger] map.turns@[i]).id == tid;
                assert(turn_ids(map.turns@)[c] == tid);
                assert(crate::map_data::find_turn(*map, tid) == u);
                assert(turn_geom_ok(u)) by {
                    assert(u == map.turns@[w]);
                }
            }
            let present = self.get_t(tid).is_some();
            let ghost before = self.turns@;
            if tid == id || present {
                self.edit_remove_turn(tid);
                let dt = DrawTurn::new(&u, slot);
                let ghost mid = self.turns@;
                self.turns.push((tid, dt));
                proof {
                    lemma_assoc_map_membership(mid);
                    crate::assoc::lemma_assoc_map_push(mid, (tid, dt));
                    assert(!assoc_keys(mid).contains(tid)) by {
                        if assoc_keys(mid).contains(tid) {
                            assert(assoc_map(mid).contains_key(tid));
                        }
                    }
                    assert(assoc_keys(self.turns@) =~= assoc_keys(mid).push(tid));
                    let keys = assoc_keys(mid);
                    assert forall|p2: int, q2: int|
                        0 <= p2 < keys.push(tid).len() && 0 <= q2 < keys.push(tid).len() && p2
                            != q2 implies keys.push(tid)[p2] != keys.push(tid)[q2] by {
                        if p2 < keys.len() && q2 == keys.len() {
                            assert(keys[p2] != tid);
                        }
                        if q2 < keys.len() && p2 == keys.len() {
                            assert(keys[q2] != tid);
                        }
                    }
                    assert(assoc_map(self.turns@) =~= assoc_map(before).remove(tid).insert(
                        tid,
                        dt,
                    ));
                }
            }
            proof {
                lemma_assoc_map_membership(tbl);
                lemma_assoc_map_values(tbl);
                assert(assoc_keys(tbl).take(k + 1).drop_last() =~= assoc_keys(tbl).take(k as int));
                assert(assoc_keys(tbl).take(k + 1).last() == assoc_keys(tbl)[k as int]);
                // The table's keys are distinct, so this entry is fresh.
                assert(!assoc_keys(tbl).take(k as int).contains(tid)) by {
                    if assoc_keys(tbl).take(k as int).contains(tid) {
                        let q = choose|q: int|
                            0 <= q < k && #[trigger] assoc_keys(tbl).take(k as int)[q] == tid;
                        assert(assoc_keys(tbl)[q] == tid);
                        assert(assoc_keys(tbl)[k as int] == tid);
                    }
                }
                assert forall|tid2: u64|
                    #[trigger] assoc_keys(tbl).take(k + 1).contains(tid2) implies (assoc_keys(
                    tbl,
                ).take(k as int).contains(tid2) || tid2 == tid) by {
                    let q = choose|q: int|
                        0 <= q < k + 1 && #[trigger] assoc_keys(tbl).take(k + 1)[q] == tid2;
                    if q < k {
                        assert(assoc_keys(tbl).take(k as int)[q] == tid2);
                    }
                }
                assert forall|tid2: u64|
                    assoc_keys(tbl).take(k as int).contains(tid2) implies #[trigger] assoc_keys(
                    tbl,
                ).take(k + 1).contains(tid2) by {
                    let q = choose|q: int|
                        0 <= q < k && #[trigger] assoc_keys(tbl).take(k as int)[q] == tid2;
                    assert(assoc_keys(tbl).take(k + 1)[q] == tid2);
                }
                assert(assoc_keys(tbl).take(k + 1)[k as int] == tid);
                assert(assoc_keys(tbl).take(k + 1).contains(tid));
            }
            k += 1;
        }
        proof {
            lemma_assoc_map_membership(tbl);
            lemma_assoc_map_values(tbl);
            assert(assoc_keys(tbl).take(tbl.len() as int) =~= assoc_keys(tbl));
            let a_new = assoc_map(self.turns@);
            // The new identifier is among the lane's resolved slots.
            let jt = choose|j: int| 0 <= j < map.turns@.len() && map.turns@[j] == t;
            map.turns@.lemma_filter_contains(
                crate::map_data::from_lane_pred(t.src_lane),
                jt,
            );
            assert(f.contains(t));
            let pt0 = choose|p: int| 0 <= p < f.len() && f[p] == t;
            assert(turn_ids(f)[pt0] == id);
            assert(turn_ids(f).contains(id));
            assert(assoc_keys(tbl).contains(id));
            assert forall|j: int|
                0 <= j < f.len() && ((#[trigger] f[j]).id == id || a_old.contains_key(
                    f[j].id,
                )) implies a_new.contains_key(f[j].id) && a_new[f[j].id] == spec_draw_turn(
                f[j],
                assoc_map(tbl)[f[j].id],
            ) by {
                assert(turn_ids(f)[j] == f[j].id);
                assert(turn_ids(f).contains(f[j].id));
                assert(assoc_keys(tbl).contains(f[j].id));
                let p = choose|p: int|
                    0 <= p < assoc_keys(tbl).len() && assoc_keys(tbl)[p] == f[j].id;
                assert(tbl[p].0 == f[j].id);
                assert(assoc_map(tbl)[tbl[p].0] == tbl[p].1);
                lemma_filter_element(map.turns@, crate::map_data::from_lane_pred(t.src_lane), j);
                let w = choose|w: int| 0 <= w < map.turns@.len() && map.turns@[w] == f[j];
                assert(turn_ids(map.turns@)[w] == f[j].id);
                let c = choose|i: int|
                    0 <= i < map.turns@.len() && (#[trigger] map.turns@[i]).id == f[j].id;
                assert(turn_ids(map.turns@)[c] == f[j].id);
                assert(crate::map_data::find_turn(*map, f[j].id) == f[j]);
            }
            assert forall|tid: u64|
                #[trigger] a_old.contains_key(tid) && !turn_ids(f).contains(tid) implies a_new
                .contains_key(tid) && a_new[tid] == a_old[tid] by {
                assert(!assoc_keys(tbl).contains(tid)) by {
                    if assoc_keys(tbl).contains(tid) {
                        assert(turn_ids(f).contains(tid));
                    }
                }
            }
        }
    }
}

/// Querying the whole scene rectangle reaches every indexed identifier:
/// with the index well formed, every stored box intersects the scene
/// rectangle, so the full-scene query set is exactly the index's domain.
pub proof fn lemma_full_scene_query(d: DrawMap)
    requires
        d.wf(),
    ensures
        crate::category_index::query_set(d.lanes_index@, d.scene_bounds) == d.lanes_index@.dom(),
        crate::category_index::query_set(d.intersections_index@, d.scene_bounds)
            == d.intersections_index@.dom(),
        crate::category_index::query_set(d.buildings_index@, d.scene_bounds)
            == d.buildings_index@.dom(),
        crate::category_index::query_set(d.parcels_index@, d.scene_bounds)
            == d.parcels_index@.dom(),
        crate::category_index::query_set(d.extra_shapes_index@, d.scene_bounds)
            == d.extra_shapes_index@.dom(),
{
    assert(crate::category_index::query_set(d.lanes_index@, d.scene_bounds)
        =~= d.lanes_index@.dom());
    assert(crate::category_index::query_set(d.intersections_index@, d.scene_bounds)
        =~= d.intersections_index@.dom());
    assert(crate::category_index::query_set(d.buildings_index@, d.scene_bounds)
        =~= d.buildings_index@.dom());
    assert(crate::category_index::query_set(d.parcels_index@, d.scene_bounds)
        =~= d.parcels_index@.dom());
    assert(crate::category_index::query_set(d.extra_shapes_index@, d.scene_bounds)
        =~= d.extra_shapes_index@.dom());
}

/// Removing a turn and immediately re-adding it from the unchanged map
/// restores the stored turn drawables exactly: what `edit_add_turn` ensures
/// of the state after `edit_remove_turn`, together with the uniqueness of a
/// correct slot assignment, forces the re-resolved lane back to its
/// build-time slots and leaves every other lane untouched.
pub proof fn lemma_turn_edit_round_trip(
    m: MapData,
    ts1: Seq<(u64, DrawTurn)>,
    a3: Map<u64, DrawTurn>,
    id: u64,
    tbl: Seq<(u64, usize)>,
)
    requires
        map_topology_wf(m),
        m.turns@.len() <= usize::MAX,
        turns_built(ts1, m),
        turn_ids(m.turns@).contains(id),
        ({
            let t = crate::map_data::find_turn(m, id);
            let f = lane_turns(m, t.src_lane);
            let a_old = assoc_map(ts1).remove(id);
            &&& resolved(f, m.lanes@[t.src_lane as int], tbl)
            &&& (forall|tid: u64|
                #[trigger] a3.contains_key(tid) <==> (a_old.contains_key(tid) || tid == id))
            &&& (forall|j: int|
                0 <= j < f.len() && ((#[trigger] f[j]).id == id || a_old.contains_key(f[j].id))
                    ==> a3.contains_key(f[j].id) && a3[f[j].id] == spec_draw_turn(
                    f[j],
                    assoc_map(tbl)[f[j].id],
                ))
            &&& (forall|tid: u64|
                #[trigger] a_old.contains_key(tid) && !turn_ids(f).contains(tid)
                    ==> a3.contains_key(tid) && a3[tid] == a_old[tid])
        }),
    ensures
        a3 == assoc_map(ts1),
{
    let t = crate::map_data::find_turn(m, id);
    let f = lane_turns(m, t.src_lane);
    let lane = m.lanes@[t.src_lane as int];
    let a1 = assoc_map(ts1);
    let a_old = a1.remove(id);
    let c = choose|i: int| 0 <= i < m.turns@.len() && (#[trigger] m.turns@[i]).id == id;
    let iw = choose|i: int| 0 <= i < turn_ids(m.turns@).len() && turn_ids(m.turns@)[i] == id;
    assert(m.turns@[iw].id == id);
    assert(turn_ids(m.turns@)[c] == id);
    assert(t == m.turns@[c]);
    assert(t.src_lane < m.lanes@.len());
    lemma_assoc_map_membership(ts1);
    lemma_filter_ids_nodup(m.turns@, crate::map_data::from_lane_pred(t.src_lane));
    assert(turn_ids(f) =~= turn_ids(m.turns@.filter(crate::map_data::from_lane_pred(
        t.src_lane,
    ))));
    assert(slots_ok(f, lane, turn_slot_map(ts1))) by {
        let l = t.src_lane as int;
        assert(slots_ok(lane_turns(m, l as u64), m.lanes@[l], turn_slot_map(ts1)));
        assert(l as u64 == t.src_lane);
    }
    assert(slots_ok(f, lane, assoc_map(tbl)));
    assert forall|tid: u64| #[trigger] a3.contains_key(tid) <==> a1.contains_key(tid) by {
        if tid == id {
            assert(assoc_keys(ts1).contains(id));
            assert(a1.contains_key(id));
        }
    }
    assert forall|tid: u64| #[trigger] a3.contains_key(tid) implies a3[tid] == a1[tid] by {
        if turn_ids(f).contains(tid) {
            let j = choose|j: int| 0 <= j < turn_ids(f).len() && turn_ids(f)[j] == tid;
            assert(f[j].id == tid);
            assert(f[j].id == id || a_old.contains_key(f[j].id)) by {
                if tid != id {
                    assert(a1.contains_key(tid));
                }
            }
            assert(a3[tid] == spec_draw_turn(f[j], assoc_map(tbl)[tid]));
            lemma_filter_element(m.turns@, crate::map_data::from_lane_pred(t.src_lane), j);
            let w = choose|w: int| 0 <= w < m.turns@.len() && m.turns@[w] == f[j];
            assert(turn_ids(m.turns@)[w] == tid);
            assert(a1[tid] == spec_draw_turn(m.turns@[w], a1[tid].slot));
            assert(a1[tid].slot == turn_slot_map(ts1)[tid]);
            crate::turn_offsets::lemma_slots_ok_unique(
                f,
                lane,
                assoc_map(tbl),
                turn_slot_map(ts1),
                j,
            );
            assert(assoc_map(tbl)[tid] == turn_slot_map(ts1)[tid]);
        } else {
            if tid == id {
                assert(turn_ids(f).contains(id)) by {
                    m.turns@.lemma_filter_contains(
                        crate::map_data::from_lane_pred(t.src_lane),
                        c,
                    );
                    assert(f.contains(t));
                    let p = choose|p: int| 0 <= p < f.len() && f[p] == t;
                    assert(turn_ids(f)[p] == id);
                }
            }
            assert(a_old.contains_key(tid));
            assert(a3[tid] == a_old[tid]);
        }
    }
    assert(a3 =~= a1);
}

/// Filtering a query result with the same visibility predicate twice yields
/// what filtering once yields.
pub proof fn lemma_visibility_filter_idempotent(s: Set<u64>, pred: spec_fn(u64) -> bool)
    ensures
        s.filter(pred).filter(pred) == s.filter(pred),
{
    assert(s.filter(pred).filter(pred) =~= s.filter(pred));
}

} // verus!

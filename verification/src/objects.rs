//! Drawable geometry derived for lanes, intersections, turns and parcels.

use vstd::prelude::*;

use crate::geometry::{
    band_polygon, bbox_contains_pt, bbox_of_points, bbox_wf, copy_points, is_extent_of,
    midpoint_coord, pt_ok, spec_midpoint, BBox, Polygon, Pt,
};
use crate::map_data::{
    lane_geom_ok, turn_geom_ok, IntersectionIn, LaneIn, LaneType, MapData, TurnIn, TURN_CAP,
};
use crate::render::{Renderable, TURN_ICON_RADIUS, TURN_ICON_SPACING};

verus! {

/// A lane has no drawable form when its centerline is empty or its width is
/// zero.
pub open spec fn lane_degenerate(l: LaneIn) -> bool {
    l.centerline@.len() == 0 || l.width == 0
}

/// An intersection has no drawable form when it has no boundary points.
pub open spec fn intersection_degenerate(i: IntersectionIn) -> bool {
    i.points@.len() == 0
}

/// The drawable form of one lane: a constant-width band along its
/// centerline.
pub struct DrawLane {
    pub id: u64,
    pub polygon: Polygon,
    pub lane_type: LaneType,
    pub start: Pt,
    pub end: Pt,
    pub bbox: BBox,
}

impl DrawLane {
    pub open spec fn wf(&self) -> bool {
        &&& bbox_wf(self.bbox)
        &&& self.polygon.points@.len() >= 2
        &&& is_extent_of(self.bbox, self.polygon.points@)
        &&& pt_ok(self.start)
        &&& pt_ok(self.end)
    }

    /// Derives the lane's band polygon and its bounding box; a degenerate
    /// lane yields nothing.
    pub fn new(id: u64, lane: &LaneIn) -> (r: Option<DrawLane>)
        requires
            lane_geom_ok(*lane),
        ensures
            r is Some <==> !lane_degenerate(*lane),
            match r {
                Some(d) => {
                    &&& d.wf()
                    &&& d.id == id
                    &&& d.lane_type == lane.lane_type
                    &&& d.polygon.points@ == band_polygon(lane.centerline@, lane.width)
                    &&& d.bbox == crate::geometry::spec_extent(
                        band_polygon(lane.centerline@, lane.width),
                    )
                    &&& d.start == lane.centerline@[0]
                    &&& d.end == lane.centerline@.last()
                },
                None => true,
            },
    {
        if lane.centerline.len() == 0 || lane.width == 0 {
            return None;
        }
        let polygon = crate::geometry::thicken_polyline(&lane.centerline, lane.width);
        let bbox = bbox_of_points(&polygon.points);
        let start = lane.centerline[0];
        let end = lane.centerline[lane.centerline.len() - 1];
        Some(DrawLane { id, polygon, lane_type: lane.lane_type, start, end, bbox })
    }
}

impl Renderable for DrawLane {
    open spec fn id_spec(&self) -> u64 {
        self.id
    }

    open spec fn bbox_spec(&self) -> BBox {
        self.bbox
    }

    fn get_id(&self) -> (r: u64) {
        self.id
    }

    fn get_bbox(&self) -> (r: BBox) {
        self.bbox
    }
}

/// The crosswalk anchors of an intersection: for each incident lane whose
/// drawable is live, that lane's endpoint at this intersection.
pub open spec fn intersection_markers(
    incident: Seq<u64>,
    map_lanes: Seq<LaneIn>,
    lanes: Seq<Option<DrawLane>>,
    id: u64,
) -> Seq<Pt>
    decreases incident.len(),
{
    if incident.len() == 0 {
        Seq::empty()
    } else {
        let prefix = intersection_markers(incident.drop_last(), map_lanes, lanes, id);
        let l = incident.last();
        if l < map_lanes.len() && l < lanes.len() && lanes[l as int] is Some {
            let dl = lanes[l as int]->Some_0;
            if map_lanes[l as int].dst_i == id {
                prefix.push(dl.end)
            } else {
                prefix.push(dl.start)
            }
        } else {
            prefix
        }
    }
}

/// The drawable form of one intersection: its boundary polygon plus a
/// crosswalk anchor per live incident lane.
pub struct DrawIntersection {
    pub id: u64,
    pub polygon: Polygon,
    pub markers: Vec<Pt>,
    pub bbox: BBox,
}

impl DrawIntersection {
    pub open spec fn wf(&self) -> bool {
        &&& bbox_wf(self.bbox)
        &&& self.polygon.points@.len() >= 1
        &&& forall|i: int|
            0 <= i < self.polygon.points@.len() ==> bbox_contains_pt(
                self.bbox,
                #[trigger] self.polygon.points@[i],
            )
        &&& forall|i: int|
            0 <= i < self.markers@.len() ==> bbox_contains_pt(
                self.bbox,
                #[trigger] self.markers@[i],
            )
    }

    /// Derives the intersection's polygon and anchors. Lanes must already be
    /// derived: the anchors read their endpoints.
    pub fn new(id: u64, inter: &IntersectionIn, map: &MapData, lanes: &Vec<Option<DrawLane>>) -> (r:
        Option<DrawIntersection>)
        requires
            forall|j: int| 0 <= j < inter.points@.len() ==> pt_ok(#[trigger] inter.points@[j]),
            forall|j: int|
                0 <= j < lanes@.len() && lanes@[j] is Some ==> (#[trigger] lanes@[j])->Some_0.wf(),
        ensures
            r is Some <==> !intersection_degenerate(*inter),
            match r {
                Some(d) => {
                    &&& d.wf()
                    &&& d.id == id
                    &&& d.polygon.points@ == inter.points@
                    &&& d.markers@ == intersection_markers(
                        inter.incident_lanes@,
                        map.lanes@,
                        lanes@,
                        id,
                    )
                    &&& d.bbox == crate::geometry::extend_over_pts(
                        crate::geometry::spec_extent(inter.points@),
                        d.markers@,
                    )
                },
                None => true,
            },
    {
        if inter.points.len() == 0 {
            return None;
        }
        let mut markers: Vec<Pt> = Vec::new();
        let mut i: usize = 0;
        while i < inter.incident_lanes.len()
            invariant
                0 <= i <= inter.incident_lanes@.len(),
                forall|j: int|
                    0 <= j < lanes@.len() && lanes@[j] is Some ==> (
                    #[trigger] lanes@[j])->Some_0.wf(),
                markers@ == intersection_markers(
                    inter.incident_lanes@.take(i as int),
                    map.lanes@,
                    lanes@,
                    id,
                ),
                forall|j: int| 0 <= j < markers@.len() ==> pt_ok(#[trigger] markers@[j]),
            decreases inter.incident_lanes@.len() - i,
        {
            let l = inter.incident_lanes[i];
            proof {
                assert(inter.incident_lanes@.take(i + 1).drop_last() =~= inter.incident_lanes@.take(
                    i as int,
                ));
                assert(inter.incident_lanes@.take(i + 1).last() == inter.incident_lanes@[i as int]);
            }
            if l < (map.lanes.len() as u64) && l < (lanes.len() as u64) {
                match &lanes[l as usize] {
                    Some(dl) => {
                        if map.lanes[l as usize].dst_i == id {
                            let e = dl.end;
                            markers.push(e);
                        } else {
                            let s = dl.start;
                            markers.push(s);
                        }
                    },
                    None => {},
                }
            }
            i += 1;
        }
        proof {
            assert(inter.incident_lanes@.take(inter.incident_lanes@.len() as int)
                =~= inter.incident_lanes@);
        }
        let points = copy_points(&inter.points);
        let mut bbox = bbox_of_points(&points);
        let mut j: usize = 0;
        while j < markers.len()
            invariant
                0 <= j <= markers@.len(),
                bbox_wf(bbox),
                forall|k: int| 0 <= k < markers@.len() ==> pt_ok(#[trigger] markers@[k]),
                forall|k: int|
                    0 <= k < points@.len() ==> bbox_contains_pt(bbox, #[trigger] points@[k]),
                forall|k: int| 0 <= k < j ==> bbox_contains_pt(bbox, #[trigger] markers@[k]),
                bbox == crate::geometry::extend_over_pts(
                    crate::geometry::spec_extent(points@),
                    markers@.take(j as int),
                ),
            decreases markers@.len() - j,
        {
            let m = markers[j];
            let mb = BBox { min_x: m.x, min_y: m.y, max_x: m.x, max_y: m.y };
            proof {
                assert(markers@.take(j + 1).drop_last() =~= markers@.take(j as int));
                assert(markers@.take(j + 1).last() == markers@[j as int]);
            }
            bbox = bbox.union(&mb);
            j += 1;
        }
        proof {
            assert(markers@.take(markers@.len() as int) =~= markers@);
        }
        Some(DrawIntersection { id, polygon: Polygon { points }, markers, bbox })
    }
}

impl Renderable for DrawIntersection {
    open spec fn id_spec(&self) -> u64 {
        self.id
    }

    open spec fn bbox_spec(&self) -> BBox {
        self.bbox
    }

    fn get_id(&self) -> (r: u64) {
        self.id
    }

    fn get_bbox(&self) -> (r: BBox) {
        self.bbox
    }
}

/// Where a turn's icon sits: the midpoint of the turn's line, pushed down by
/// the turn's stacking slot.
pub open spec fn spec_icon_center(t: TurnIn, slot: usize) -> Pt {
    Pt {
        x: spec_midpoint(t.line.p1.x, t.line.p2.x) as i64,
        y: (spec_midpoint(t.line.p1.y, t.line.p2.y) + slot * TURN_ICON_SPACING) as i64,
    }
}

/// The whole drawable a turn and its slot determine: the stacked icon and
/// its bounding square.
pub open spec fn spec_draw_turn(t: TurnIn, slot: usize) -> DrawTurn {
    let center = spec_icon_center(t, slot);
    DrawTurn {
        id: t.id,
        slot,
        icon_center: center,
        bbox: BBox {
            min_x: (center.x - TURN_ICON_RADIUS) as i64,
            min_y: (center.y - TURN_ICON_RADIUS) as i64,
            max_x: (center.x + TURN_ICON_RADIUS) as i64,
            max_y: (center.y + TURN_ICON_RADIUS) as i64,
        },
    }
}

/// The drawable form of one turn: a stacked icon at its line's midpoint.
pub struct DrawTurn {
    pub id: u64,
    pub slot: usize,
    pub icon_center: Pt,
    pub bbox: BBox,
}

impl DrawTurn {
    pub open spec fn wf(&self) -> bool {
        bbox_wf(self.bbox)
    }

    /// Derives the icon placement of a turn given its stacking slot; the
    /// drawable is a function of the turn and the slot alone.
    pub fn new(t: &TurnIn, slot: usize) -> (r: DrawTurn)
        requires
            turn_geom_ok(*t),
            slot <= TURN_CAP,
        ensures
            r == spec_draw_turn(*t, slot),
            r.wf(),
    {
        let cx = midpoint_coord(t.line.p1.x, t.line.p2.x);
        let cy = midpoint_coord(t.line.p1.y, t.line.p2.y);
        let offset: i64 = (slot as u64 * TURN_ICON_SPACING) as i64;
        let center = Pt { x: cx, y: cy + offset };
        let bbox = BBox {
            min_x: center.x - (TURN_ICON_RADIUS as i64),
            min_y: center.y - (TURN_ICON_RADIUS as i64),
            max_x: center.x + (TURN_ICON_RADIUS as i64),
            max_y: center.y + (TURN_ICON_RADIUS as i64),
        };
        DrawTurn { id: t.id, slot, icon_center: center, bbox }
    }
}

impl Renderable for DrawTurn {
    open spec fn id_spec(&self) -> u64 {
        self.id
    }

    open spec fn bbox_spec(&self) -> BBox {
        self.bbox
    }

    fn get_id(&self) -> (r: u64) {
        self.id
    }

    fn get_bbox(&self) -> (r: BBox) {
        self.bbox
    }
}

/// A parcel has no drawable form when it has no boundary points.
pub open spec fn parcel_degenerate(p: crate::map_data::ParcelIn) -> bool {
    p.points@.len() == 0
}

/// The drawable form of one parcel: its boundary polygon.
pub struct DrawParcel {
    pub id: u64,
    pub fill_polygon: Polygon,
    pub bbox: BBox,
}

impl DrawParcel {
    pub open spec fn wf(&self) -> bool {
        &&& bbox_wf(self.bbox)
        &&& self.fill_polygon.points@.len() >= 1
        &&& is_extent_of(self.bbox, self.fill_polygon.points@)
    }

    /// Derives the parcel's polygon and bounding box; a parcel without
    /// points yields nothing.
    pub fn new(id: u64, parcel: &crate::map_data::ParcelIn) -> (r: Option<DrawParcel>)
        requires
            crate::map_data::parcel_geom_ok(*parcel),
        ensures
            r is Some <==> !parcel_degenerate(*parcel),
            match r {
                Some(d) => {
                    &&& d.wf()
                    &&& d.id == id
                    &&& d.fill_polygon.points@ == parcel.points@
                },
                None => true,
            },
    {
        if parcel.points.len() == 0 {
            return None;
        }
        let points = copy_points(&parcel.points);
        let bbox = bbox_of_points(&points);
        Some(DrawParcel { id, fill_polygon: Polygon { points }, bbox })
    }
}

impl Renderable for DrawParcel {
    open spec fn id_spec(&self) -> u64 {
        self.id
    }

    open spec fn bbox_spec(&self) -> BBox {
        self.bbox
    }

    fn get_id(&self) -> (r: u64) {
        self.id
    }

    fn get_bbox(&self) -> (r: BBox) {
        self.bbox
    }
}

} // verus!

//! Drawable geometry derived for one building: a fill polygon, a thin
//! boundary outline, and a front-path connector to the adjacent sidewalk.

use vstd::prelude::*;

use crate::geometry::{
    band_polygon, bbox_contains_pt, bbox_of_points, bbox_wf, copy_points, polygon_contains_pt,
    pt_ok, spec_polygon_contains_pt, thicken_polyline, BBox, Line, Polygon, Pt,
};
use crate::map_data::{building_geom_ok, BuildingIn};
use crate::render::{Renderable, BUILDING_BOUNDARY_THICKNESS, FRONT_PATH_TRIM_EPSILON};

verus! {

/// A building has no drawable form when it has no boundary points or its
/// front path has no length.
pub open spec fn building_degenerate(b: BuildingIn) -> bool {
    b.points@.len() == 0 || b.front_path_len == 0
}

/// The drawn length of a front path: the measured length trimmed back by
/// half the adjacent sidewalk's thickness, but only when the trim leaves a
/// residue strictly above the trim epsilon; otherwise the path stays
/// untrimmed.
pub open spec fn spec_trimmed_len(len: u64, sidewalk_thickness: u64) -> u64 {
    let trim_back = sidewalk_thickness / 2;
    if len > trim_back && len - trim_back > FRONT_PATH_TRIM_EPSILON {
        (len - trim_back) as u64
    } else {
        len
    }
}

/// An exact copy of a key/value list.
fn copy_pairs(v: &Vec<(String, String)>) -> (r: Vec<(String, String)>)
    ensures
        r@ == v@,
{
    let mut r: Vec<(String, String)> = Vec::new();
    let mut i: usize = 0;
    while i < v.len()
        invariant
            0 <= i <= v@.len(),
            r@ == v@.take(i as int),
        decreases v@.len() - i,
    {
        let k = v[i].0.clone();
        let val = v[i].1.clone();
        r.push((k, val));
        proof {
            assert(r@ =~= v@.take(i + 1));
        }
        i += 1;
    }
    proof {
        assert(v@.take(v@.len() as int) =~= v@);
    }
    r
}

/// The tag value stored under this key, if the tag list has it.
pub open spec fn find_tag(tags: Seq<(String, String)>, key: Seq<char>) -> Option<String>
    decreases tags.len(),
{
    if tags.len() == 0 {
        None
    } else if tags[0].0@ == key {
        Some(tags[0].1)
    } else {
        find_tag(tags.drop_first(), key)
    }
}

/// The front-path connector: the original line and the length actually
/// drawn along it, starting at the building end.
#[derive(Clone, Copy, PartialEq, Eq, Structural, Debug)]
pub struct FrontPath {
    pub line: Line,
    pub draw_len: u64,
}

/// The drawable form of one building, with the source way and its tags kept
/// for tooltips.
pub struct DrawBuilding {
    pub id: u64,
    pub fill_polygon: Polygon,
    pub boundary_polygon: Polygon,
    pub front_path: FrontPath,
    pub osm_way_id: u64,
    pub tags: Vec<(String, String)>,
    pub label: Option<String>,
    pub label_pos: Pt,
    pub has_parking_icon: bool,
    pub bbox: BBox,
}

impl DrawBuilding {
    pub open spec fn wf(&self) -> bool {
        &&& bbox_wf(self.bbox)
        &&& self.fill_polygon.points@.len() >= 1
        &&& forall|i: int|
            0 <= i < self.fill_polygon.points@.len() ==> bbox_contains_pt(
                self.bbox,
                #[trigger] self.fill_polygon.points@[i],
            )
        &&& bbox_contains_pt(self.bbox, self.front_path.line.p1)
        &&& bbox_contains_pt(self.bbox, self.front_path.line.p2)
    }

    /// Derives a building's drawable form; the drawable is a function of the
    /// input alone. The bounding box is exactly the fill polygon's extent
    /// widened by the two front-path endpoints.
    pub fn new(id: u64, b: &BuildingIn) -> (r: Option<DrawBuilding>)
        requires
            building_geom_ok(*b),
        ensures
            r is Some <==> !building_degenerate(*b),
            match r {
                Some(d) => {
                    &&& d.wf()
                    &&& d.id == id
                    &&& d.fill_polygon.points@ == b.points@
                    &&& d.boundary_polygon.points@ == band_polygon(
                        b.points@,
                        BUILDING_BOUNDARY_THICKNESS,
                    )
                    &&& d.front_path.line == b.front_path
                    &&& d.front_path.draw_len == spec_trimmed_len(
                        b.front_path_len,
                        b.sidewalk_thickness,
                    )
                    &&& d.osm_way_id == b.osm_way_id
                    &&& d.tags@ == b.osm_tags@
                    &&& d.label == find_tag(b.osm_tags@, "addr:housenumber"@)
                    &&& d.label_pos == b.label_center
                    &&& d.has_parking_icon == b.has_parking
                    &&& d.bbox == crate::geometry::spec_bbox_union(
                        crate::geometry::spec_bbox_union(
                            crate::geometry::spec_extent(b.points@),
                            crate::geometry::pt_box(b.front_path.p1),
                        ),
                        crate::geometry::pt_box(b.front_path.p2),
                    )
                },
                None => true,
            },
    {
        if b.points.len() == 0 || b.front_path_len == 0 {
            return None;
        }
        let trim_back = b.sidewalk_thickness / 2;
        let draw_len = if b.front_path_len > trim_back && b.front_path_len - trim_back
            > FRONT_PATH_TRIM_EPSILON {
            b.front_path_len - trim_back
        } else {
            b.front_path_len
        };
        let boundary_polygon = thicken_polyline(&b.points, BUILDING_BOUNDARY_THICKNESS);
        let points = copy_points(&b.points);
        let base = bbox_of_points(&points);
        let p1 = b.front_path.p1;
        let p2 = b.front_path.p2;
        let bbox = base.union(
            &BBox { min_x: p1.x, min_y: p1.y, max_x: p1.x, max_y: p1.y },
        ).union(&BBox { min_x: p2.x, min_y: p2.y, max_x: p2.x, max_y: p2.y });
        let ghost tag_seq = b.osm_tags@;
        let number_key = "addr:housenumber".to_owned();
        proof {
            assert(tag_seq.skip(0) =~= tag_seq);
        }
        let mut label: Option<String> = None;
        let mut matched = false;
        let mut i: usize = 0;
        while i < b.osm_tags.len()
            invariant
                0 <= i <= tag_seq.len(),
                b.osm_tags@ == tag_seq,
                number_key@ == "addr:housenumber"@,
                !matched ==> find_tag(tag_seq, "addr:housenumber"@) == find_tag(
                    tag_seq.skip(i as int),
                    "addr:housenumber"@,
                ),
                !matched ==> (label is None),
                matched ==> find_tag(tag_seq, "addr:housenumber"@) == label,
            decreases tag_seq.len() - i,
        {
            if !matched {
                proof {
                    assert(tag_seq.skip(i as int)[0] == tag_seq[i as int]);
                    assert(tag_seq.skip(i as int).drop_first() =~= tag_seq.skip(i + 1));
                }
                if b.osm_tags[i].0 == number_key {
                    matched = true;
                    label = Some(b.osm_tags[i].1.clone());
                }
            }
            i += 1;
        }
        proof {
            if !matched {
                assert(tag_seq.skip(tag_seq.len() as int) =~= Seq::<(String, String)>::empty());
            }
        }
        let tags = copy_pairs(&b.osm_tags);
        Some(
            DrawBuilding {
                id,
                fill_polygon: Polygon { points },
                boundary_polygon,
                front_path: FrontPath { line: b.front_path, draw_len },
                osm_way_id: b.osm_way_id,
                tags,
                label,
                label_pos: b.label_center,
                has_parking_icon: b.has_parking,
                bbox,
            },
        )
    }
}

impl DrawBuilding {
    /// Precise hit test: whether a map-space point lies inside the fill
    /// polygon, by the even-odd rule.
    pub fn contains_pt(&self, p: Pt) -> (r: bool)
        requires
            self.wf(),
            pt_ok(p),
        ensures
            r == spec_polygon_contains_pt(self.fill_polygon.points@, p),
    {
        proof {
            assert forall|i: int|
                0 <= i < self.fill_polygon.points@.len() implies crate::geometry::derived_pt_ok(
                #[trigger] self.fill_polygon.points@[i],
            ) by {
                assert(bbox_contains_pt(self.bbox, self.fill_polygon.points@[i]));
            }
        }
        polygon_contains_pt(&self.fill_polygon.points, p)
    }
}

impl Renderable for DrawBuilding {
    open spec fn id_spec(&self) -> u64 {
        self.id
    }

    open spec fn bbox_spec(&self) -> BBox {
        self.bbox
    }

    fn get_id(&self) -> (r: u64) {
        self.id
    }

    fn get_bbox(&self) -> (r: BBox) {
        self.bbox
    }
}

} // verus!

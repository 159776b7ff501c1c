//! Drawable geometry derived for one auxiliary annotation shape: a circle
//! for a point record, a constant-width band for a polyline record.

use vstd::prelude::*;

use crate::geometry::{
    band_polygon, bbox_wf, circle_to_bbox, is_extent_of, point_in_circle, polygon_contains_pt,
    pt_ok, spec_point_in_circle, spec_polygon_contains_pt, thicken_polyline, BBox, Polygon, Pt,
};
use crate::map_data::{extra_shape_geom_ok, ExtraShapeGeomIn, ExtraShapeIn};
use crate::render::{Renderable, EXTRA_SHAPE_POINT_RADIUS, EXTRA_SHAPE_THICKNESS};

verus! {

/// An annotation has no drawable form when its polyline has no points.
pub open spec fn extra_shape_degenerate(s: ExtraShapeIn) -> bool {
    match s.geom {
        ExtraShapeGeomIn::Point(_) => false,
        ExtraShapeGeomIn::Points(pl) => pl@.len() == 0,
    }
}

/// The geometry variant of a drawable annotation.
pub enum Shape {
    Polygon(Polygon),
    Circle(Pt, u64),
}

/// The drawable form of one annotation shape, with its free-form attributes
/// kept for tooltips.
pub struct DrawExtraShape {
    pub id: u64,
    pub shape: Shape,
    pub attributes: Vec<(String, String)>,
    pub bbox: BBox,
}

impl DrawExtraShape {
    pub open spec fn wf(&self) -> bool {
        &&& bbox_wf(self.bbox)
        &&& match self.shape {
            Shape::Polygon(p) => p.points@.len() >= 1 && is_extent_of(self.bbox, p.points@),
            Shape::Circle(c, radius) => {
                &&& radius <= crate::geometry::WIDTH_LIMIT
                &&& self.bbox.min_x == c.x - radius
                &&& self.bbox.min_y == c.y - radius
                &&& self.bbox.max_x == c.x + radius
                &&& self.bbox.max_y == c.y + radius
            },
        }
    }

    /// Derives an annotation's drawable form: a fixed-radius circle for a
    /// point, a constant-width band for a polyline. A polyline without
    /// points yields nothing.
    pub fn new(id: u64, s: ExtraShapeIn) -> (r: Option<DrawExtraShape>)
        requires
            extra_shape_geom_ok(s),
        ensures
            r is Some <==> !extra_shape_degenerate(s),
            match r {
                Some(d) => {
                    &&& d.wf()
                    &&& d.id == id
                    &&& d.attributes == s.attributes
                    &&& match s.geom {
                        ExtraShapeGeomIn::Point(c) => d.shape == Shape::Circle(
                            c,
                            EXTRA_SHAPE_POINT_RADIUS,
                        ),
                        ExtraShapeGeomIn::Points(pl) => d.shape matches Shape::Polygon(p)
                            && p.points@ == band_polygon(pl@, EXTRA_SHAPE_THICKNESS),
                    }
                },
                None => true,
            },
    {
        match s.geom {
            ExtraShapeGeomIn::Point(c) => {
                let bbox = circle_to_bbox(c, EXTRA_SHAPE_POINT_RADIUS);
                Some(
                    DrawExtraShape {
                        id,
                        shape: Shape::Circle(c, EXTRA_SHAPE_POINT_RADIUS),
                        attributes: s.attributes,
                        bbox,
                    },
                )
            },
            ExtraShapeGeomIn::Points(pl) => {
                if pl.len() == 0 {
                    return None;
                }
                let polygon = thicken_polyline(&pl, EXTRA_SHAPE_THICKNESS);
                let bbox = crate::geometry::bbox_of_points(&polygon.points);
                Some(
                    DrawExtraShape {
                        id,
                        shape: Shape::Polygon(polygon),
                        attributes: s.attributes,
                        bbox,
                    },
                )
            },
        }
    }
}

impl DrawExtraShape {
    /// Precise hit test: inside the circle, or inside the band polygon by
    /// the even-odd rule.
    pub fn contains_pt(&self, p: Pt) -> (r: bool)
        requires
            self.wf(),
            pt_ok(p),
        ensures
            r == match self.shape {
                Shape::Polygon(poly) => spec_polygon_contains_pt(poly.points@, p),
                Shape::Circle(c, radius) => spec_point_in_circle(c, radius, p),
            },
    {
        match &self.shape {
            Shape::Polygon(poly) => {
                proof {
                    assert forall|i: int|
                        0 <= i < poly.points@.len() implies crate::geometry::derived_pt_ok(
                        #[trigger] poly.points@[i],
                    ) by {
                        assert(crate::geometry::bbox_contains_pt(self.bbox, poly.points@[i]));
                    }
                }
                polygon_contains_pt(&poly.points, p)
            },
            Shape::Circle(c, radius) => {
                proof {
                    assert(crate::geometry::derived_pt_ok(*c));
                }
                point_in_circle(*c, *radius, p)
            },
        }
    }
}

impl DrawExtraShape {
    /// The tooltip content: each attribute in stored order, flagged when its
    /// key is the interesting `TEXT` key the display emphasizes.
    pub fn tooltip_entries(&self) -> (r: Vec<(bool, String, String)>)
        ensures
            r@ == self.attributes@.map_values(
                |e: (String, String)| (e.0@ == "TEXT"@, e.0, e.1),
            ),
    {
        let text_key = "TEXT".to_owned();
        let mut r: Vec<(bool, String, String)> = Vec::new();
        let mut i: usize = 0;
        while i < self.attributes.len()
            invariant
                0 <= i <= self.attributes@.len(),
                text_key@ == "TEXT"@,
                r@ == self.attributes@.take(i as int).map_values(
                    |e: (String, String)| (e.0@ == "TEXT"@, e.0, e.1),
                ),
            decreases self.attributes@.len() - i,
        {
            let k = self.attributes[i].0.clone();
            let v = self.attributes[i].1.clone();
            let emphasized = k == text_key;
            r.push((emphasized, k, v));
            proof {
                assert(r@ =~= self.attributes@.take(i + 1).map_values(
                    |e: (String, String)| (e.0@ == "TEXT"@, e.0, e.1),
                ));
            }
            i += 1;
        }
        proof {
            assert(self.attributes@.take(self.attributes@.len() as int) =~= self.attributes@);
        }
        r
    }
}

impl Renderable for DrawExtraShape {
    open spec fn id_spec(&self) -> u64 {
        self.id
    }

    open spec fn bbox_spec(&self) -> BBox {
        self.bbox
    }

    fn get_id(&self) -> (r: u64) {
        self.id
    }

    fn get_bbox(&self) -> (r: BBox) {
        self.bbox
    }
}

} // verus!

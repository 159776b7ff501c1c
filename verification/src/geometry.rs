//! Exact 2D geometry primitives: points, axis-aligned bounding boxes and
//! polygons over integer fixed-point coordinates, 100 units to one map-space
//! unit.

use vstd::prelude::*;

verus! {

/// Largest magnitude an input coordinate may have.
pub const COORD_LIMIT: i64 = 1_000_000_000;

/// Largest magnitude a scalar thickness, width or radius may have.
pub const WIDTH_LIMIT: u64 = 1_000_000;

/// How far a derived coordinate may stray beyond `COORD_LIMIT`
/// (half-widths, circle radii, icon stacking offsets).
pub const DERIVED_MARGIN: i64 = 10_000_000;

/// A point in map space.
#[derive(Clone, Copy, PartialEq, Eq, Structural, Debug)]
pub struct Pt {
    pub x: i64,
    pub y: i64,
}

/// A line segment in map space.
#[derive(Clone, Copy, PartialEq, Eq, Structural, Debug)]
pub struct Line {
    pub p1: Pt,
    pub p2: Pt,
}

/// An axis-aligned rectangle in map space; the key of the spatial index.
#[derive(Clone, Copy, PartialEq, Eq, Structural, Debug)]
pub struct BBox {
    pub min_x: i64,
    pub min_y: i64,
    pub max_x: i64,
    pub max_y: i64,
}

/// An input coordinate within the supported range.
pub open spec fn coord_ok(x: i64) -> bool {
    -COORD_LIMIT <= x <= COORD_LIMIT
}

/// A derived coordinate: an input coordinate possibly inflated by a
/// half-width, radius or stacking offset.
pub open spec fn derived_coord_ok(x: i64) -> bool {
    -(COORD_LIMIT + DERIVED_MARGIN) <= x <= COORD_LIMIT + DERIVED_MARGIN
}

pub open spec fn pt_ok(p: Pt) -> bool {
    coord_ok(p.x) && coord_ok(p.y)
}

/// A derived point: within the derived coordinate range.
pub open spec fn derived_pt_ok(p: Pt) -> bool {
    derived_coord_ok(p.x) && derived_coord_ok(p.y)
}

/// Well-formed box: non-empty extent, coordinates in derived range.
pub open spec fn bbox_wf(b: BBox) -> bool {
    &&& b.min_x <= b.max_x
    &&& b.min_y <= b.max_y
    &&& derived_coord_ok(b.min_x)
    &&& derived_coord_ok(b.min_y)
    &&& derived_coord_ok(b.max_x)
    &&& derived_coord_ok(b.max_y)
}

/// Two boxes intersect; touching at a boundary counts.
pub open spec fn bbox_intersects(a: BBox, b: BBox) -> bool {
    &&& a.min_x <= b.max_x
    &&& b.min_x <= a.max_x
    &&& a.min_y <= b.max_y
    &&& b.min_y <= a.max_y
}

/// `outer` contains all of `inner`.
pub open spec fn bbox_contains(outer: BBox, inner: BBox) -> bool {
    &&& outer.min_x <= inner.min_x
    &&& outer.min_y <= inner.min_y
    &&& inner.max_x <= outer.max_x
    &&& inner.max_y <= outer.max_y
}

pub open spec fn bbox_contains_pt(b: BBox, p: Pt) -> bool {
    &&& b.min_x <= p.x <= b.max_x
    &&& b.min_y <= p.y <= b.max_y
}

/// The degenerate box holding exactly one point.
pub open spec fn pt_box(p: Pt) -> BBox {
    BBox { min_x: p.x, min_y: p.y, max_x: p.x, max_y: p.y }
}

/// The smallest box containing both arguments.
pub open spec fn spec_bbox_union(a: BBox, b: BBox) -> BBox {
    BBox {
        min_x: if a.min_x <= b.min_x { a.min_x } else { b.min_x },
        min_y: if a.min_y <= b.min_y { a.min_y } else { b.min_y },
        max_x: if a.max_x >= b.max_x { a.max_x } else { b.max_x },
        max_y: if a.max_y >= b.max_y { a.max_y } else { b.max_y },
    }
}

impl BBox {
    /// Whether this box and `other` overlap, boundary touching included.
    pub fn intersects(&self, other: &BBox) -> (r: bool)
        ensures
            r == bbox_intersects(*self, *other),
    {
        self.min_x <= other.max_x && other.min_x <= self.max_x && self.min_y <= other.max_y
            && other.min_y <= self.max_y
    }

    /// The smallest box containing both this box and `other`.
    pub fn union(&self, other: &BBox) -> (r: BBox)
        ensures
            r == spec_bbox_union(*self, *other),
            bbox_wf(*self) && bbox_wf(*other) ==> bbox_wf(r),
            bbox_contains(r, *self),
            bbox_contains(r, *other),
    {
        BBox {
            min_x: if self.min_x <= other.min_x {
                self.min_x
            } else {
                other.min_x
            },
            min_y: if self.min_y <= other.min_y {
                self.min_y
            } else {
                other.min_y
            },
            max_x: if self.max_x >= other.max_x {
                self.max_x
            } else {
                other.max_x
            },
            max_y: if self.max_y >= other.max_y {
                self.max_y
            } else {
                other.max_y
            },
        }
    }

    /// The midpoint of the box, rounded toward the minimum corner.
    pub fn center(&self) -> (r: Pt)
        requires
            bbox_wf(*self),
        ensures
            r.x == self.min_x + (self.max_x - self.min_x) / 2,
            r.y == self.min_y + (self.max_y - self.min_y) / 2,
    {
        let dx: u64 = (self.max_x - self.min_x) as u64;
        let dy: u64 = (self.max_y - self.min_y) as u64;
        Pt { x: self.min_x + (dx / 2) as i64, y: self.min_y + (dy / 2) as i64 }
    }
}

/// A drawable polygon: a non-empty list of vertices.
#[derive(Clone, Debug)]
pub struct Polygon {
    pub points: Vec<Pt>,
}

pub open spec fn polygon_wf(p: Polygon) -> bool {
    &&& p.points@.len() >= 1
    &&& forall|i: int| 0 <= i < p.points@.len() ==> derived_pt_ok(#[trigger] p.points@[i])
}

/// The exact extent of a non-empty set of points: every point lies inside,
/// and each side of the box is touched by some point.
pub open spec fn is_extent_of(b: BBox, pts: Seq<Pt>) -> bool {
    &&& forall|i: int| 0 <= i < pts.len() ==> bbox_contains_pt(b, #[trigger] pts[i])
    &&& exists|i: int| 0 <= i < pts.len() && (#[trigger] pts[i]).x == b.min_x
    &&& exists|i: int| 0 <= i < pts.len() && (#[trigger] pts[i]).x == b.max_x
    &&& exists|i: int| 0 <= i < pts.len() && (#[trigger] pts[i]).y == b.min_y
    &&& exists|i: int| 0 <= i < pts.len() && (#[trigger] pts[i]).y == b.max_y
}

/// The extent of a non-empty point list, folded from the left.
pub open spec fn spec_extent(pts: Seq<Pt>) -> BBox
    decreases pts.len(),
{
    if pts.len() <= 1 {
        BBox { min_x: pts[0].x, min_y: pts[0].y, max_x: pts[0].x, max_y: pts[0].y }
    } else {
        let prev = spec_extent(pts.drop_last());
        let p = pts.last();
        spec_bbox_union(prev, BBox { min_x: p.x, min_y: p.y, max_x: p.x, max_y: p.y })
    }
}

/// A base box widened over a list of points, folded from the left.
pub open spec fn extend_over_pts(base: BBox, pts: Seq<Pt>) -> BBox
    decreases pts.len(),
{
    if pts.len() == 0 {
        base
    } else {
        spec_bbox_union(extend_over_pts(base, pts.drop_last()), pt_box(pts.last()))
    }
}

/// The bounding box of a non-empty list of points.
pub fn bbox_of_points(pts: &Vec<Pt>) -> (r: BBox)
    requires
        pts@.len() >= 1,
        forall|i: int| 0 <= i < pts@.len() ==> derived_pt_ok(#[trigger] pts@[i]),
    ensures
        r == spec_extent(pts@),
        is_extent_of(r, pts@),
        bbox_wf(r),
{
    let first = pts[0];
    let mut r = BBox { min_x: first.x, min_y: first.y, max_x: first.x, max_y: first.y };
    let mut i: usize = 1;
    while i < pts.len()
        invariant
            1 <= i <= pts@.len(),
            pts@.len() >= 1,
            forall|j: int| 0 <= j < pts@.len() ==> derived_pt_ok(#[trigger] pts@[j]),
            r.min_x <= r.max_x,
            r.min_y <= r.max_y,
            forall|j: int| 0 <= j < i ==> bbox_contains_pt(r, #[trigger] pts@[j]),
            exists|j: int| 0 <= j < i && (#[trigger] pts@[j]).x == r.min_x,
            exists|j: int| 0 <= j < i && (#[trigger] pts@[j]).x == r.max_x,
            exists|j: int| 0 <= j < i && (#[trigger] pts@[j]).y == r.min_y,
            exists|j: int| 0 <= j < i && (#[trigger] pts@[j]).y == r.max_y,
            derived_coord_ok(r.min_x) && derived_coord_ok(r.min_y) && derived_coord_ok(r.max_x)
                && derived_coord_ok(r.max_y),
            r == spec_extent(pts@.take(i as int)),
        decreases pts@.len() - i,
    {
        let p = pts[i];
        proof {
            assert(pts@.take(i + 1).drop_last() =~= pts@.take(i as int));
            assert(pts@.take(i + 1).last() == pts@[i as int]);
        }
        if p.x < r.min_x {
            r.min_x = p.x;
        }
        if p.x > r.max_x {
            r.max_x = p.x;
        }
        if p.y < r.min_y {
            r.min_y = p.y;
        }
        if p.y > r.max_y {
            r.max_y = p.y;
        }
        i += 1;
    }
    proof {
        assert(pts@.take(pts@.len() as int) =~= pts@);
    }
    r
}

impl Polygon {
    /// A polygon over the given vertices.
    pub fn new(points: Vec<Pt>) -> (r: Polygon)
        ensures
            r.points == points,
    {
        Polygon { points }
    }

    /// The extent of the polygon's vertices.
    pub fn get_bounds(&self) -> (r: BBox)
        requires
            polygon_wf(*self),
        ensures
            is_extent_of(r, self.points@),
            bbox_wf(r),
    {
        bbox_of_points(&self.points)
    }
}

/// What `thicken_polyline` produces for one centerline point: its two
/// half-width corner offsets.
pub open spec fn band_corners(p: Pt, half: int) -> (Pt, Pt) {
    (
        Pt { x: (p.x - half) as i64, y: (p.y - half) as i64 },
        Pt { x: (p.x + half) as i64, y: (p.y + half) as i64 },
    )
}

/// The vertices of the constant-width band along a polyline: the two
/// half-width corners of each centerline point, in order.
pub open spec fn band_polygon(pts: Seq<Pt>, width: u64) -> Seq<Pt> {
    Seq::new(
        2 * pts.len(),
        |i: int|
            if i % 2 == 0 {
                band_corners(pts[i / 2], width as int / 2).0
            } else {
                band_corners(pts[i / 2], width as int / 2).1
            },
    )
}

/// A conservative constant-width band along a polyline: for each centerline
/// point the polygon gets the two corners of that point's half-width square.
/// The band's extent is exactly the centerline's extent inflated by the
/// half-width, which is all the spatial index reads of it.
pub fn thicken_polyline(pts: &Vec<Pt>, width: u64) -> (r: Polygon)
    requires
        pts@.len() >= 1,
        forall|i: int| 0 <= i < pts@.len() ==> pt_ok(#[trigger] pts@[i]),
        width <= WIDTH_LIMIT,
    ensures
        r.points@ == band_polygon(pts@, width),
        r.points@.len() == 2 * pts@.len(),
        forall|i: int| 0 <= i < r.points@.len() ==> derived_coord_ok((#[trigger] r.points@[i]).x)
            && derived_coord_ok(r.points@[i].y),
{
    let half: i64 = (width / 2) as i64;
    let mut out: Vec<Pt> = Vec::new();
    let mut i: usize = 0;
    while i < pts.len()
        invariant
            0 <= i <= pts@.len(),
            forall|j: int| 0 <= j < pts@.len() ==> pt_ok(#[trigger] pts@[j]),
            half == width as int / 2,
            0 <= half <= WIDTH_LIMIT,
            out@.len() == 2 * i,
            forall|j: int|
                0 <= j < i ==> {
                    let (lo, hi) = band_corners(#[trigger] pts@[j], half as int);
                    out@[2 * j] == lo && out@[2 * j + 1] == hi
                },
            forall|j: int| 0 <= j < out@.len() ==> derived_coord_ok((#[trigger] out@[j]).x)
                && derived_coord_ok(out@[j].y),
        decreases pts@.len() - i,
    {
        let p = pts[i];
        out.push(Pt { x: p.x - half, y: p.y - half });
        out.push(Pt { x: p.x + half, y: p.y + half });
        i += 1;
    }
    proof {
        assert(out@ =~= band_polygon(pts@, width));
    }
    Polygon { points: out }
}

/// The midpoint of two coordinates, rounded toward the smaller one.
pub open spec fn spec_midpoint(a: i64, b: i64) -> int {
    if a <= b {
        a + (b - a) / 2
    } else {
        b + (a - b) / 2
    }
}

pub fn midpoint_coord(a: i64, b: i64) -> (r: i64)
    requires
        coord_ok(a),
        coord_ok(b),
    ensures
        r == spec_midpoint(a, b),
        coord_ok(r),
{
    if a <= b {
        let d: u64 = (b - a) as u64;
        a + (d / 2) as i64
    } else {
        let d: u64 = (a - b) as u64;
        b + (d / 2) as i64
    }
}

/// An exact copy of a point list.
pub fn copy_points(v: &Vec<Pt>) -> (r: Vec<Pt>)
    ensures
        r@ == v@,
{
    let mut r: Vec<Pt> = Vec::new();
    let mut i: usize = 0;
    while i < v.len()
        invariant
            0 <= i <= v@.len(),
            r@ == v@.take(i as int),
        decreases v@.len() - i,
    {
        let p = v[i];
        r.push(p);
        proof {
            assert(r@ =~= v@.take(i + 1));
        }
        i += 1;
    }
    proof {
        assert(v@.take(v@.len() as int) =~= v@);
    }
    r
}

/// The bounding square of a circle.
pub fn circle_to_bbox(center: Pt, radius: u64) -> (r: BBox)
    requires
        pt_ok(center),
        radius <= WIDTH_LIMIT,
    ensures
        r.min_x == center.x - radius,
        r.min_y == center.y - radius,
        r.max_x == center.x + radius,
        r.max_y == center.y + radius,
        bbox_wf(r),
{
    let rad: i64 = radius as i64;
    BBox {
        min_x: center.x - rad,
        min_y: center.y - rad,
        max_x: center.x + rad,
        max_y: center.y + rad,
    }
}


/// One polygon edge crosses the rightward ray from `p`, by the even-odd
/// rule: the edge spans `p`'s height, and the ray meets it strictly left of
/// the crossing point. Stated over exact integers by multiplying the
/// crossing condition through by the edge's height difference.
pub open spec fn edge_crosses_ray(a: Pt, b: Pt, p: Pt) -> bool {
    &&& ((a.y > p.y) != (b.y > p.y))
    &&& {
        let dy = b.y - a.y;
        if dy > 0 {
            (p.x - a.x) * dy < (b.x - a.x) * (p.y - a.y)
        } else {
            (p.x - a.x) * dy > (b.x - a.x) * (p.y - a.y)
        }
    }
}

/// How many of the first `n` edges of the polygon (each vertex to its
/// successor, wrapping around) cross the rightward ray from `p`.
pub open spec fn crossings(pts: Seq<Pt>, p: Pt, n: int) -> int
    decreases n,
{
    if n <= 0 {
        0
    } else {
        let a = pts[n - 1];
        let b = pts[if n == pts.len() {
            0
        } else {
            n
        }];
        crossings(pts, p, n - 1) + if edge_crosses_ray(a, b, p) {
            1int
        } else {
            0int
        }
    }
}

/// A point is inside a polygon when the rightward ray from it crosses the
/// boundary an odd number of times.
pub open spec fn spec_polygon_contains_pt(pts: Seq<Pt>, p: Pt) -> bool {
    crossings(pts, p, pts.len() as int) % 2 == 1
}

fn edge_crosses_ray_exec(a: Pt, b: Pt, p: Pt) -> (r: bool)
    requires
        derived_pt_ok(a),
        derived_pt_ok(b),
        pt_ok(p),
    ensures
        r == edge_crosses_ray(a, b, p),
{
    if (a.y > p.y) == (b.y > p.y) {
        return false;
    }
    let dxp: i128 = (p.x - a.x) as i128;
    let dyw: i128 = (b.y - a.y) as i128;
    let dxe: i128 = (b.x - a.x) as i128;
    let dyp: i128 = (p.y - a.y) as i128;
    proof {
        assert(-4000000000 <= dxp <= 4000000000);
        assert(-4000000000 <= dyw <= 4000000000);
        assert(-4000000000 <= dxe <= 4000000000);
        assert(-4000000000 <= dyp <= 4000000000);
        assert(-16000000000000000000 <= dxp * dyw <= 16000000000000000000) by (nonlinear_arith)
            requires
                -4000000000 <= dxp <= 4000000000,
                -4000000000 <= dyw <= 4000000000,
        ;
        assert(-16000000000000000000 <= dxe * dyp <= 16000000000000000000) by (nonlinear_arith)
            requires
                -4000000000 <= dxe <= 4000000000,
                -4000000000 <= dyp <= 4000000000,
        ;
    }
    let lhs: i128 = dxp * dyw;
    let rhs: i128 = dxe * dyp;
    if dyw > 0 {
        lhs < rhs
    } else {
        lhs > rhs
    }
}

/// Exact point-in-polygon test by the even-odd rule.
pub fn polygon_contains_pt(pts: &Vec<Pt>, p: Pt) -> (r: bool)
    requires
        forall|i: int| 0 <= i < pts@.len() ==> derived_pt_ok(#[trigger] pts@[i]),
        pt_ok(p),
    ensures
        r == spec_polygon_contains_pt(pts@, p),
{
    let mut odd = false;
    let mut i: usize = 0;
    while i < pts.len()
        invariant
            0 <= i <= pts@.len(),
            forall|j: int| 0 <= j < pts@.len() ==> derived_pt_ok(#[trigger] pts@[j]),
            pt_ok(p),
            odd == (crossings(pts@, p, i as int) % 2 == 1),
        decreases pts@.len() - i,
    {
        let a = pts[i];
        let b = if i + 1 == pts.len() {
            pts[0]
        } else {
            pts[i + 1]
        };
        proof {
            assert(pts@[(i + 1) as int - 1] == pts@[i as int]);
        }
        if edge_crosses_ray_exec(a, b, p) {
            odd = !odd;
        }
        i += 1;
    }
    odd
}

/// Exact point-in-circle test: within or on the circle of this center and
/// radius.
pub open spec fn spec_point_in_circle(center: Pt, radius: u64, p: Pt) -> bool {
    (p.x - center.x) * (p.x - center.x) + (p.y - center.y) * (p.y - center.y) <= radius * radius
}

pub fn point_in_circle(center: Pt, radius: u64, p: Pt) -> (r: bool)
    requires
        derived_pt_ok(center),
        pt_ok(p),
        radius <= WIDTH_LIMIT,
    ensures
        r == spec_point_in_circle(center, radius, p),
{
    let dx = p.x - center.x;
    let dy = p.y - center.y;
    let rad = radius as i64;
    proof {
        assert(-2100000000 <= dx <= 2100000000);
        assert(-2100000000 <= dy <= 2100000000);
        assert(0 <= dx * dx <= 4410000000000000000) by (nonlinear_arith)
            requires
                -2100000000 <= dx <= 2100000000,
        ;
        assert(0 <= dy * dy <= 4410000000000000000) by (nonlinear_arith)
            requires
                -2100000000 <= dy <= 2100000000,
        ;
        assert(0 <= rad * rad <= 1000000000000) by (nonlinear_arith)
            requires
                0 <= rad <= 1000000,
        ;
    }
    dx * dx + dy * dy <= rad * rad
}

} // verus!

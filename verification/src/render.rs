//! The capability every drawable object exposes to the scene index: a stable
//! identifier and a precomputed bounding box.

use vstd::prelude::*;

use crate::geometry::BBox;

verus! {

/// Width of the thin outline drawn around a building's fill polygon.
pub const BUILDING_BOUNDARY_THICKNESS: u64 = 50;

/// Radius of the circle drawn for a point annotation.
pub const EXTRA_SHAPE_POINT_RADIUS: u64 = 100;

/// Width of the band drawn for a polyline annotation.
pub const EXTRA_SHAPE_THICKNESS: u64 = 100;

/// Vertical distance between two stacked turn icons at one lane endpoint.
pub const TURN_ICON_SPACING: u64 = 50;

/// Radius of one turn icon.
pub const TURN_ICON_RADIUS: u64 = 50;

/// The leftover a front-path trim must keep; a shorter residue leaves the
/// path untrimmed.
pub const FRONT_PATH_TRIM_EPSILON: u64 = 25;

/// What every drawable category exposes to the scene index.
pub trait Renderable {
    /// The object's stable identifier.
    spec fn id_spec(&self) -> u64;

    /// The object's precomputed bounding box.
    spec fn bbox_spec(&self) -> BBox;

    fn get_id(&self) -> (r: u64)
        ensures
            r == self.id_spec(),
    ;

    fn get_bbox(&self) -> (r: BBox)
        ensures
            r == self.bbox_spec(),
    ;
}

} // verus!

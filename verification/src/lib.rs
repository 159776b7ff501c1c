//! A 2D scene index for a road network renderer.
//!
//! The library ingests a parsed map (lanes, intersections, turns, buildings,
//! parcels) plus auxiliary annotation shapes, derives drawable geometry for
//! each object, indexes every category by axis-aligned bounding box, and
//! answers "which objects of this category intersect this viewport rectangle"
//! queries, optionally filtered by a visibility predicate.
//!
//! All coordinates are integers in fixed-point map units (100 units to one
//! map-space unit), so every geometric derivation is exact and verified.

pub mod assoc;
pub mod building;
pub mod category_index;
pub mod extra_shape;
pub mod geometry;
pub mod hider;
pub mod input;
pub mod map;
pub mod map_data;
pub mod objects;
pub mod render;
pub mod turn_offsets;

pub use geometry::{BBox, Polygon, Pt};

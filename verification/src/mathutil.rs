//! Exact geometric primitives on integer map coordinates.
//!
//! The box-containment test is the one the tree descent uses.  It is
//! inclusive on both corner orderings, so callers may pass the two box
//! corners either way around.

use vstd::prelude::*;

verus! {

/// A point in integer map units.
#[derive(Clone, Copy, PartialEq, Eq, Structural, Debug)]
pub struct Vec3i {
    pub x: i32,
    pub y: i32,
    pub z: i32,
}

/// Whether `point` lies within the box spanned by `min` and `max`,
/// componentwise and inclusive, in either corner orientation.
pub open spec fn spec_point_in_box(point: Vec3i, min: Vec3i, max: Vec3i) -> bool {
    (min.x <= point.x <= max.x && min.y <= point.y <= max.y && min.z <= point.z <= max.z) || (
    min.x >= point.x >= max.x && min.y >= point.y >= max.y && min.z >= point.z >= max.z)
}

pub fn point_in_box(point: Vec3i, min: Vec3i, max: Vec3i) -> (r: bool)
    ensures
        r == spec_point_in_box(point, min, max),
{
    (min.x <= point.x && point.x <= max.x && min.y <= point.y && point.y <= max.y && min.z
        <= point.z && point.z <= max.z) || (min.x >= point.x && point.x >= max.x && min.y
        >= point.y && point.y >= max.y && min.z >= point.z && point.z >= max.z)
}

/// The box test does not care which way around the two corners are
/// handed in: swapping them never changes the answer.
pub proof fn lemma_point_in_box_symmetric(point: Vec3i, a: Vec3i, b: Vec3i)
    ensures
        spec_point_in_box(point, a, b) == spec_point_in_box(point, b, a),
{
}

} // verus!

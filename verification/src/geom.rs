//! Screen-space points and the small exact-arithmetic helpers the
//! visibility engine is built from.

use vstd::prelude::*;

verus! {

/// Every coordinate the engine works with is bounded by this limit, which
/// keeps all intermediate products inside `i128` and all stored values inside
/// `i64`.  It is far larger than any plotting surface.
pub const COORD_LIMIT: i64 = 1048576;

/// A screen-space point: `x`/`y` are plotting coordinates, `z` is the depth
/// proxy produced by the camera's perspective divide (comparable only within
/// one camera generation).
#[derive(Clone, Copy, Debug, PartialEq, Eq, Structural)]
pub struct Point {
    pub x: i64,
    pub y: i64,
    pub z: i64,
}

/// A point is in range when every coordinate is within `COORD_LIMIT`.
pub open spec fn wf_point(p: Point) -> bool {
    &&& -COORD_LIMIT <= p.x <= COORD_LIMIT
    &&& -COORD_LIMIT <= p.y <= COORD_LIMIT
    &&& -COORD_LIMIT <= p.z <= COORD_LIMIT
}

/// Squared 2D (screen-plane) distance between two points.
pub open spec fn sq_dist2(p0: Point, p1: Point) -> int {
    (p0.x - p1.x) * (p0.x - p1.x) + (p0.y - p1.y) * (p0.y - p1.y)
}

pub open spec fn spec_min(a: int, b: int) -> int {
    if a <= b {
        a
    } else {
        b
    }
}

pub open spec fn spec_max(a: int, b: int) -> int {
    if a >= b {
        a
    } else {
        b
    }
}

/// Componentwise minimum of two points.
pub open spec fn point_min(p0: Point, p1: Point) -> Point {
    Point {
        x: spec_min(p0.x as int, p1.x as int) as i64,
        y: spec_min(p0.y as int, p1.y as int) as i64,
        z: spec_min(p0.z as int, p1.z as int) as i64,
    }
}

/// Componentwise maximum of two points.
pub open spec fn point_max(p0: Point, p1: Point) -> Point {
    Point {
        x: spec_max(p0.x as int, p1.x as int) as i64,
        y: spec_max(p0.y as int, p1.y as int) as i64,
        z: spec_max(p0.z as int, p1.z as int) as i64,
    }
}

impl Point {
    pub fn new(x: i64, y: i64, z: i64) -> (r: Point)
        ensures
            r == (Point { x, y, z }),
    {
        Point { x, y, z }
    }
}

/// Squared 2D length of the segment from `p0` to `p1`.
pub fn dist2(p0: &Point, p1: &Point) -> (r: i64)
    requires
        wf_point(*p0),
        wf_point(*p1),
    ensures
        r == sq_dist2(*p0, *p1),
        r >= 0,
{
    let dx: i64 = p0.x - p1.x;
    let dy: i64 = p0.y - p1.y;
    proof {
        assert(dx * dx <= 4 * COORD_LIMIT * COORD_LIMIT && dx * dx >= 0) by (nonlinear_arith)
            requires
                -2 * COORD_LIMIT <= dx <= 2 * COORD_LIMIT,
        ;
        assert(dy * dy <= 4 * COORD_LIMIT * COORD_LIMIT && dy * dy >= 0) by (nonlinear_arith)
            requires
                -2 * COORD_LIMIT <= dy <= 2 * COORD_LIMIT,
        ;
    }
    dx * dx + dy * dy
}

/// Componentwise maximum, as the bounding-box helper of the engine.
pub fn v3max(v0: &Point, v1: &Point) -> (r: Point)
    ensures
        r == point_max(*v0, *v1),
{
    Point {
        x: if v0.x >= v1.x {
            v0.x
        } else {
            v1.x
        },
        y: if v0.y >= v1.y {
            v0.y
        } else {
            v1.y
        },
        z: if v0.z >= v1.z {
            v0.z
        } else {
            v1.z
        },
    }
}

/// Componentwise minimum, as the bounding-box helper of the engine.
pub fn v3min(v0: &Point, v1: &Point) -> (r: Point)
    ensures
        r == point_min(*v0, *v1),
{
    Point {
        x: if v0.x <= v1.x {
            v0.x
        } else {
            v1.x
        },
        y: if v0.y <= v1.y {
            v0.y
        } else {
            v1.y
        },
        z: if v0.z <= v1.z {
            v0.z
        } else {
            v1.z
        },
    }
}

/// Two intersection points are merged when they land on the same exact
/// screen location; with exact coordinates "close enough" is equality.
pub fn close_enough(p0: &Point, p1: &Point) -> (r: bool)
    ensures
        r == (*p0 == *p1),
{
    p0.x == p1.x && p0.y == p1.y && p0.z == p1.z
}

} // verus!

//! Screen-space triangles and their exact barycentric-coordinate query.
//!
//! A triangle carries its three projected vertices, a precomputed bounding
//! box and the two edge vectors used for barycentric computation.  Because
//! coordinates are integers, barycentric coordinates are kept as exact
//! fractions (numerators over the doubled signed area) instead of being
//! divided out, so the point-in-triangle and depth predicates are decided
//! without any rounding.

use vstd::prelude::*;
use crate::geom::{COORD_LIMIT, Point, point_max, point_min, v3max, v3min, wf_point};

verus! {

/// A triangle in screen space, immutable once built for a camera generation.
#[derive(Clone, Copy, Debug)]
pub struct Triangle {
    /// Back-facing or degenerate; skipped entirely by the engine.
    pub is_invisible: bool,
    /// Componentwise minimum of the three vertices.
    pub min: Point,
    /// Componentwise maximum of the three vertices.
    pub max: Point,
    /// First edge vector, `screen1 - screen0`.
    pub t1: Point,
    /// Second edge vector, `screen2 - screen0`.
    pub t2: Point,
    /// The three projected vertices.
    pub screen0: Point,
    pub screen1: Point,
    pub screen2: Point,
}

/// Componentwise difference of two points, used for edge vectors.
pub open spec fn point_sub(a: Point, b: Point) -> Point {
    Point { x: (a.x - b.x) as i64, y: (a.y - b.y) as i64, z: (a.z - b.z) as i64 }
}

/// A triangle is well formed when its vertices are in range and its derived
/// fields (bounding box and edge vectors) agree with the vertices.
pub open spec fn wf_triangle(t: Triangle) -> bool {
    &&& wf_point(t.screen0)
    &&& wf_point(t.screen1)
    &&& wf_point(t.screen2)
    &&& t.min == point_min(point_min(t.screen0, t.screen1), t.screen2)
    &&& t.max == point_max(point_max(t.screen0, t.screen1), t.screen2)
    &&& t.t1 == point_sub(t.screen1, t.screen0)
    &&& t.t2 == point_sub(t.screen2, t.screen0)
}

/// Twice the signed area of the triangle's screen footprint; the common
/// denominator of its barycentric coordinates.  Zero exactly for degenerate
/// (zero-area) triangles.
pub open spec fn tri_den(t: Triangle) -> int {
    t.t1.x * t.t2.y - t.t2.x * t.t1.y
}

/// Numerator of the first barycentric coordinate of `p` (over `tri_den`).
pub open spec fn bary_a_num(t: Triangle, p: Point) -> int {
    (p.x - t.screen0.x) * t.t2.y - (p.y - t.screen0.y) * t.t2.x
}

/// Numerator of the second barycentric coordinate of `p` (over `tri_den`).
pub open spec fn bary_b_num(t: Triangle, p: Point) -> int {
    (p.y - t.screen0.y) * t.t1.x - (p.x - t.screen0.x) * t.t1.y
}

/// Numerator of the triangle's interpolated depth at `p` (over `tri_den`):
/// the exact value of `screen0.z + a * t1.z + b * t2.z`.
pub open spec fn bary_z_num(t: Triangle, p: Point) -> int {
    t.screen0.z * tri_den(t) + bary_a_num(t, p) * t.t1.z + bary_b_num(t, p) * t.t2.z
}

/// Exact barycentric coordinates of a point: both numerators, the depth
/// numerator, and the shared denominator.
#[derive(Clone, Copy, Debug, PartialEq, Eq, Structural)]
pub struct Bary {
    pub a_num: i64,
    pub b_num: i64,
    pub z_num: i128,
    pub den: i64,
}

/// The exact barycentric record of `p` against `t`.
pub open spec fn bary_spec(t: Triangle, p: Point) -> Bary {
    Bary {
        a_num: bary_a_num(t, p) as i64,
        b_num: bary_b_num(t, p) as i64,
        z_num: bary_z_num(t, p) as i128,
        den: tri_den(t) as i64,
    }
}

/// The point-in-footprint predicate over an exact barycentric record:
/// `a >= 0`, `b >= 0` and `a + b <= 1`, decided by sign-aware comparison of
/// the numerators against the denominator.  A degenerate triangle
/// (denominator zero) contains nothing.
pub open spec fn bary_inside(b: Bary) -> bool {
    if b.den > 0 {
        b.a_num >= 0 && b.b_num >= 0 && b.a_num + b.b_num <= b.den
    } else if b.den < 0 {
        b.a_num <= 0 && b.b_num <= 0 && b.a_num + b.b_num >= b.den
    } else {
        false
    }
}

/// `p` lies inside the 2D footprint of `t`.
pub open spec fn inside_spec(t: Triangle, p: Point) -> bool {
    bary_inside(bary_spec(t, p))
}

/// The depth of `p` is not behind the triangle's interpolated depth at
/// `p`'s screen position: `p.z <= z_num / den`, decided exactly.  The
/// comparison is inclusive: a point exactly on the triangle's plane counts
/// as not occluded, as a tolerance-widened test does for inexact
/// arithmetic.  Meaningful only for a non-degenerate triangle.
pub open spec fn depth_below(t: Triangle, p: Point) -> bool {
    if tri_den(t) > 0 {
        p.z * tri_den(t) <= bary_z_num(t, p)
    } else if tri_den(t) < 0 {
        p.z * tri_den(t) >= bary_z_num(t, p)
    } else {
        false
    }
}

/// `|a| <= aa` and `|b| <= bb` bound the product: `|a * b| <= aa * bb`.
pub proof fn lemma_mul_bound(a: int, b: int, aa: int, bb: int)
    requires
        -aa <= a <= aa,
        -bb <= b <= bb,
        0 <= aa,
        0 <= bb,
    ensures
        -(aa * bb) <= a * b <= aa * bb,
{
    assert(-(aa * bb) <= a * b <= aa * bb) by (nonlinear_arith)
        requires
            -aa <= a <= aa,
            -bb <= b <= bb,
            0 <= aa,
            0 <= bb,
    ;
}

/// Bounds on the barycentric numerators and denominator of a well-formed
/// triangle and an in-range point.
pub proof fn lemma_bary_bounds(t: Triangle, p: Point)
    requires
        wf_triangle(t),
        wf_point(p),
    ensures
        -8 * COORD_LIMIT * COORD_LIMIT <= tri_den(t) <= 8 * COORD_LIMIT * COORD_LIMIT,
        -8 * COORD_LIMIT * COORD_LIMIT <= bary_a_num(t, p) <= 8 * COORD_LIMIT * COORD_LIMIT,
        -8 * COORD_LIMIT * COORD_LIMIT <= bary_b_num(t, p) <= 8 * COORD_LIMIT * COORD_LIMIT,
        -40 * COORD_LIMIT * COORD_LIMIT * COORD_LIMIT <= bary_z_num(t, p)
            <= 40 * COORD_LIMIT * COORD_LIMIT * COORD_LIMIT,
{
    let l = COORD_LIMIT as int;
    assert((2 * l) * (2 * l) == 4 * l * l) by (nonlinear_arith);
    assert(l * (8 * l * l) == 8 * l * l * l) by (nonlinear_arith);
    assert((8 * l * l) * (2 * l) == 16 * l * l * l) by (nonlinear_arith);
    lemma_mul_bound(t.t1.x as int, t.t2.y as int, 2 * l, 2 * l);
    lemma_mul_bound(t.t2.x as int, t.t1.y as int, 2 * l, 2 * l);
    lemma_mul_bound(p.x - t.screen0.x, t.t2.y as int, 2 * l, 2 * l);
    lemma_mul_bound(p.y - t.screen0.y, t.t2.x as int, 2 * l, 2 * l);
    lemma_mul_bound(p.y - t.screen0.y, t.t1.x as int, 2 * l, 2 * l);
    lemma_mul_bound(p.x - t.screen0.x, t.t1.y as int, 2 * l, 2 * l);
    lemma_mul_bound(t.screen0.z as int, tri_den(t), l, 8 * l * l);
    lemma_mul_bound(bary_a_num(t, p), t.t1.z as int, 8 * l * l, 2 * l);
    lemma_mul_bound(bary_b_num(t, p), t.t2.z as int, 8 * l * l, 2 * l);
}

impl Triangle {
    /// Builds a triangle from its three projected vertices, precomputing the
    /// bounding box and the two edge vectors.
    pub fn new(screen0: Point, screen1: Point, screen2: Point, is_invisible: bool) -> (r:
        Triangle)
        requires
            wf_point(screen0),
            wf_point(screen1),
            wf_point(screen2),
        ensures
            wf_triangle(r),
            r.screen0 == screen0,
            r.screen1 == screen1,
            r.screen2 == screen2,
            r.is_invisible == is_invisible,
    {
        let min01 = v3min(&screen0, &screen1);
        let max01 = v3max(&screen0, &screen1);
        Triangle {
            is_invisible,
            min: v3min(&min01, &screen2),
            max: v3max(&max01, &screen2),
            t1: Point { x: screen1.x - screen0.x, y: screen1.y - screen0.y, z: screen1.z
                - screen0.z },
            t2: Point { x: screen2.x - screen0.x, y: screen2.y - screen0.y, z: screen2.z
                - screen0.z },
            screen0,
            screen1,
            screen2,
        }
    }

    /// Exact barycentric coordinates of `p` in this triangle's local basis:
    /// the numerators of `a`, `b` and of the interpolated depth, all over
    /// the shared denominator (twice the signed area).
    pub fn bary_coord(&self, p: &Point) -> (r: Bary)
        requires
            wf_triangle(*self),
            wf_point(*p),
        ensures
            r == bary_spec(*self, *p),
    {
        let px: i64 = p.x - self.screen0.x;
        let py: i64 = p.y - self.screen0.y;
        proof {
            let l = COORD_LIMIT as int;
            lemma_mul_bound(self.t1.x as int, self.t2.y as int, 2 * l, 2 * l);
            lemma_mul_bound(self.t2.x as int, self.t1.y as int, 2 * l, 2 * l);
            lemma_mul_bound(px as int, self.t2.y as int, 2 * l, 2 * l);
            lemma_mul_bound(py as int, self.t2.x as int, 2 * l, 2 * l);
            lemma_mul_bound(py as int, self.t1.x as int, 2 * l, 2 * l);
            lemma_mul_bound(px as int, self.t1.y as int, 2 * l, 2 * l);
        }
        let d: i64 = self.t1.x * self.t2.y - self.t2.x * self.t1.y;
        let a_num: i64 = px * self.t2.y - py * self.t2.x;
        let b_num: i64 = py * self.t1.x - px * self.t1.y;
        proof {
            let l = COORD_LIMIT as int;
            lemma_mul_bound(self.screen0.z as int, d as int, l, 8 * l * l);
            lemma_mul_bound(a_num as int, self.t1.z as int, 8 * l * l, 2 * l);
            lemma_mul_bound(b_num as int, self.t2.z as int, 8 * l * l, 2 * l);
        }
        let z_num: i128 = (self.screen0.z as i128) * (d as i128) + (a_num as i128) * (self.t1.z
            as i128) + (b_num as i128) * (self.t2.z as i128);
        Bary { a_num, b_num, z_num, den: d }
    }
}

/// The point-in-footprint test over an exact barycentric record.  With
/// exact coordinates the boundary-inclusive comparison plays the role a
/// small tolerance plays for inexact arithmetic: points exactly on an edge
/// count as inside.
pub fn inside(b: &Bary) -> (r: bool)
    ensures
        r == bary_inside(*b),
{
    if b.den > 0 {
        b.a_num >= 0 && b.b_num >= 0 && (b.a_num as i128) + (b.b_num as i128) <= (b.den as i128)
    } else if b.den < 0 {
        b.a_num <= 0 && b.b_num <= 0 && (b.a_num as i128) + (b.b_num as i128) >= (b.den as i128)
    } else {
        false
    }
}

} // verus!

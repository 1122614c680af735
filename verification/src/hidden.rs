//! The visibility engine: classification of one screen-space segment against
//! one triangle, with in-place clipping and splitting, and the outer driver
//! that tests a segment against every candidate triangle from the spatial
//! index.
//!
//! Every decision the engine takes is stated by the spec functions in this
//! module; `occlude` and `hidden_wire` are proved to return exactly what
//! those functions say, so the whole decision sequence (and every tie-break
//! for the degenerate cases) is pinned down.

use vstd::prelude::*;
use vstd::arithmetic::div_mod::{lemma_div_by_multiple, lemma_div_is_ordered};
use crate::geom::{COORD_LIMIT, Point, close_enough, dist2, sq_dist2, spec_max, spec_min, v3max, v3min, wf_point};
use crate::triangle::{
    Bary,
    Triangle,
    bary_spec,
    depth_below,
    inside,
    inside_spec,
    lemma_bary_bounds,
    lemma_mul_bound,
    wf_triangle,
};
use crate::screen_map::{ScreenBucketMap, cell_tris, key_coord, key_coord_spec, wf_bucket_map};
use std::collections::VecDeque;

verus! {

/// How one triangle relates to one segment.
#[derive(Clone, Copy, Debug, PartialEq, Eq, Structural)]
pub enum Occlude {
    /// The triangle does not obscure any part of the segment.
    NoOcclusion,
    /// The segment is nowhere behind the triangle (its farthest depth does
    /// not exceed the triangle's nearest); with candidates sorted
    /// nearest-first no later candidate can occlude it.
    InFront,
    /// The whole segment is obscured (or degenerate) and is dropped.
    Hidden,
    /// One endpoint was moved to an intersection point.
    Clipped,
    /// A middle portion is obscured: the segment was shrunk in place and a
    /// second remainder was enqueued for independent testing.
    Split,
}

/// An ordered pair of screen-space points: a wireframe edge or sub-edge.
/// Mutable during occlusion testing; its endpoints may be overwritten to
/// represent a clipped remainder.
#[derive(Clone, Copy, Debug, PartialEq, Eq, Structural)]
pub struct Segment {
    pub p0: Point,
    pub p1: Point,
}

/// A FIFO queue of segments awaiting occlusion testing; grows when a split
/// spawns a remainder, shrinks as the caller drains it.
pub type WorkQueue = VecDeque<Segment>;

pub open spec fn wf_segment(s: Segment) -> bool {
    wf_point(s.p0) && wf_point(s.p1)
}

/// What one `occlude` call does: the classification, the (possibly trimmed)
/// segment, and the remainder enqueued on a split, if any.
#[derive(Clone, Copy, Debug, PartialEq, Eq, Structural)]
pub struct OccResult {
    pub state: Occlude,
    pub seg: Segment,
    pub spawned: Option<Segment>,
}

pub open spec fn occ(state: Occlude, seg: Segment, spawned: Option<Segment>) -> OccResult {
    OccResult { state, seg, spawned }
}

/// Division truncated toward zero, for a positive divisor.
pub open spec fn tdiv(n: int, d: int) -> int
    recommends
        d > 0,
{
    if n >= 0 {
        n / d
    } else {
        -((-n) / d)
    }
}

/// Exact intersection of the segment `p0 p1` with the (triangle-edge)
/// segment `p2 p3`, in the screen plane.  `None` when the lines are parallel
/// (zero cross product), when the crossing falls outside either segment's
/// `[0, 1]` parameter range, or when the segment is not behind the edge at
/// the crossing (a non-occluding crossing).  Otherwise the crossing point on
/// the segment, each coordinate truncated toward `p0`.
pub open spec fn intercept_spec(p0: Point, p1: Point, p2: Point, p3: Point) -> Option<Point> {
    let s0x = p1.x - p0.x;
    let s0y = p1.y - p0.y;
    let s0z = p1.z - p0.z;
    let s1x = p3.x - p2.x;
    let s1y = p3.y - p2.y;
    let s1z = p3.z - p2.z;
    let d0 = s0x * s1y - s1x * s0y;
    if d0 == 0 {
        None
    } else {
        let n0raw = s1x * (p0.y - p2.y) - s1y * (p0.x - p2.x);
        let n1raw = s0x * (p0.y - p2.y) - s0y * (p0.x - p2.x);
        let d = if d0 > 0 {
            d0
        } else {
            -d0
        };
        let n0 = if d0 > 0 {
            n0raw
        } else {
            -n0raw
        };
        let n1 = if d0 > 0 {
            n1raw
        } else {
            -n1raw
        };
        if !(0 <= n0 <= d) || !(0 <= n1 <= d) {
            None
        } else if p0.z * d + s0z * n0 <= p2.z * d + s1z * n1 {
            None
        } else {
            Some(
                Point {
                    x: (p0.x + tdiv(s0x * n0, d)) as i64,
                    y: (p0.y + tdiv(s0y * n0, d)) as i64,
                    z: (p0.z + tdiv(s0z * n0, d)) as i64,
                },
            )
        }
    }
}

pub open spec fn opt_point_seq(o: Option<Point>) -> Seq<Point> {
    match o {
        Some(p) => seq![p],
        None => Seq::empty(),
    }
}

/// The occluding crossings of the segment with the triangle's three edges,
/// in edge order.
pub open spec fn intercepts_spec(t: Triangle, s: Segment) -> Seq<Point> {
    opt_point_seq(intercept_spec(s.p0, s.p1, t.screen0, t.screen1)) + opt_point_seq(
        intercept_spec(s.p0, s.p1, t.screen1, t.screen2),
    ) + opt_point_seq(intercept_spec(s.p0, s.p1, t.screen2, t.screen0))
}

/// `v` lies between `a` and `b` (in either order).
pub open spec fn between(v: int, a: int, b: int) -> bool {
    spec_min(a, b) <= v <= spec_max(a, b)
}

/// An intersection point never leaves the axis-aligned box of the segment's
/// endpoints, in any coordinate.
pub open spec fn in_seg_box(ip: Point, s: Segment) -> bool {
    &&& between(ip.x as int, s.p0.x as int, s.p1.x as int)
    &&& between(ip.y as int, s.p0.y as int, s.p1.y as int)
    &&& between(ip.z as int, s.p0.z as int, s.p1.z as int)
}

/// Classification once the segment has at least one endpoint outside the
/// triangle's footprint: intersect against the three edges, normalize the
/// raw crossing count, then hide, clip or split.
pub open spec fn classify_far(t: Triangle, s: Segment) -> OccResult {
    let is0 = intercepts_spec(t, s);
    if is0.len() == 0 {
        occ(Occlude::NoOcclusion, s, None)
    } else if is0.len() == 3 && !(is0[0] == is0[2] || is0[1] == is0[2] || is0[0] == is0[1]) {
        // three distinct crossings: a degenerate or near-zero-area triangle;
        // conservatively drop the whole segment
        occ(Occlude::Hidden, s, None)
    } else {
        let is1 = if is0.len() == 3 {
            if is0[0] == is0[2] || is0[1] == is0[2] {
                is0.take(2)
            } else {
                seq![is0[0], is0[2]]
            }
        } else {
            is0
        };
        let is2 = if is1.len() == 2 && is1[0] == is1[1] {
            is1.take(1)
        } else {
            is1
        };
        if is2.len() == 1 {
            if inside_spec(t, s.p0) {
                occ(Occlude::Clipped, Segment { p0: is2[0], p1: s.p1 }, None)
            } else if inside_spec(t, s.p1) {
                occ(Occlude::Clipped, Segment { p0: s.p0, p1: is2[0] }, None)
            } else {
                // a tangent touch: nothing is clipped
                occ(Occlude::NoOcclusion, s, None)
            }
        } else {
            let i0 = is2[0];
            let i1 = is2[1];
            let d00 = sq_dist2(i0, s.p0);
            let d01 = sq_dist2(i1, s.p0);
            let d10 = sq_dist2(i0, s.p1);
            let d11 = sq_dist2(i1, s.p1);
            if d00 == 0 && d11 == 0 {
                // the segment matches the chord exactly: wholly occluded
                occ(Occlude::Hidden, s, None)
            } else if d01 == 0 && d10 == 0 {
                occ(Occlude::Hidden, s, None)
            } else if d00 == 0 {
                occ(Occlude::Clipped, Segment { p0: i1, p1: s.p1 }, None)
            } else if d01 == 0 {
                occ(Occlude::Clipped, Segment { p0: i0, p1: s.p1 }, None)
            } else if d10 == 0 {
                occ(Occlude::Clipped, Segment { p0: s.p0, p1: i1 }, None)
            } else if d11 == 0 {
                occ(Occlude::Clipped, Segment { p0: s.p0, p1: i0 }, None)
            } else if d00 > d01 {
                // the occluded region lies strictly inside the segment: keep
                // the near piece for the queue, shrink this one to the far
                // piece
                occ(Occlude::Split, Segment { p0: i0, p1: s.p1 }, Some(Segment { p0: s.p0, p1: i1 }))
            } else {
                occ(Occlude::Split, Segment { p0: i1, p1: s.p1 }, Some(Segment { p0: s.p0, p1: i0 }))
            }
        }
    }
}

/// The full decision sequence of one `occlude` call, in short-circuit order:
/// invisible triangle, sub-pixel segment, segment in front, disjoint
/// bounding boxes, both endpoints inside the footprint, then the
/// edge-crossing cases.
pub open spec fn occlude_spec(t: Triangle, s: Segment) -> OccResult {
    if t.is_invisible {
        occ(Occlude::NoOcclusion, s, None)
    } else if sq_dist2(s.p1, s.p0) < 1 {
        occ(Occlude::Hidden, s, None)
    } else if spec_max(s.p0.z as int, s.p1.z as int) <= t.min.z {
        occ(Occlude::InFront, s, None)
    } else if spec_max(s.p0.x as int, s.p1.x as int) < t.min.x || t.max.x < spec_min(
        s.p0.x as int,
        s.p1.x as int,
    ) || spec_max(s.p0.y as int, s.p1.y as int) < t.min.y || t.max.y < spec_min(
        s.p0.y as int,
        s.p1.y as int,
    ) {
        occ(Occlude::NoOcclusion, s, None)
    } else if inside_spec(t, s.p0) && inside_spec(t, s.p1) {
        if depth_below(t, s.p0) && depth_below(t, s.p1) {
            occ(Occlude::NoOcclusion, s, None)
        } else {
            // the segment pierces the triangle's plane inside its footprint
            // (or something is degenerate about it): conservatively dropped
            occ(Occlude::Hidden, s, None)
        }
    } else {
        classify_far(t, s)
    }
}

pub open spec fn opt_seg_seq(o: Option<Segment>) -> Seq<Segment> {
    match o {
        Some(s) => seq![s],
        None => Seq::empty(),
    }
}

/// `tdiv(c * n, d)` with `0 <= n <= d` stays between `0` and `c`.
pub proof fn lemma_tdiv_between(c: int, n: int, d: int)
    requires
        d > 0,
        0 <= n <= d,
    ensures
        c >= 0 ==> 0 <= tdiv(c * n, d) <= c,
        c < 0 ==> c <= tdiv(c * n, d) <= 0,
{
    if c >= 0 {
        assert(0 <= c * n <= c * d) by (nonlinear_arith)
            requires
                c >= 0,
                0 <= n <= d,
        ;
        lemma_div_is_ordered(0, c * n, d);
        lemma_div_is_ordered(c * n, c * d, d);
        lemma_div_by_multiple(c, d);
    } else {
        let m = -c;
        assert(0 <= m * n <= m * d) by (nonlinear_arith)
            requires
                m > 0,
                0 <= n <= d,
        ;
        assert(-(c * n) == m * n) by (nonlinear_arith)
            requires
                m == -c,
        ;
        lemma_div_is_ordered(0, m * n, d);
        lemma_div_is_ordered(m * n, m * d, d);
        lemma_div_by_multiple(m, d);
    }
}

/// Division truncated toward zero leaves a remainder strictly smaller in
/// magnitude than the divisor and with the sign of the dividend.
pub proof fn lemma_tdiv_exact(n: int, d: int)
    requires
        d > 0,
    ensures
        -d < n - d * tdiv(n, d) < d,
        n >= 0 ==> n - d * tdiv(n, d) >= 0,
        n < 0 ==> n - d * tdiv(n, d) <= 0,
{
    if n >= 0 {
        vstd::arithmetic::div_mod::lemma_fundamental_div_mod(n, d);
        vstd::arithmetic::div_mod::lemma_mod_division_less_than_divisor(n, d);
        assert(n - d * tdiv(n, d) == n % d);
    } else {
        vstd::arithmetic::div_mod::lemma_fundamental_div_mod(-n, d);
        vstd::arithmetic::div_mod::lemma_mod_division_less_than_divisor(-n, d);
        let q = (-n) / d;
        assert(d * (-q) == -(d * q)) by (nonlinear_arith);
        assert(n - d * tdiv(n, d) == -((-n) % d));
    }
}

/// A crossing reported by `intercept_spec` stays inside the axis-aligned
/// box of the segment's endpoints, so clipping never enlarges a segment.
pub proof fn lemma_intercept_in_box(p0: Point, p1: Point, p2: Point, p3: Point)
    ensures
        match intercept_spec(p0, p1, p2, p3) {
            Some(ip) => in_seg_box(ip, Segment { p0, p1 }),
            None => true,
        },
{
    if intercept_spec(p0, p1, p2, p3) is Some {
        let s0x = p1.x - p0.x;
        let s0y = p1.y - p0.y;
        let s0z = p1.z - p0.z;
        let s1x = p3.x - p2.x;
        let s1y = p3.y - p2.y;
        let d0 = s0x * s1y - s1x * s0y;
        let d = if d0 > 0 {
            d0
        } else {
            -d0
        };
        let n0raw = s1x * (p0.y - p2.y) - s1y * (p0.x - p2.x);
        let n0 = if d0 > 0 {
            n0raw
        } else {
            -n0raw
        };
        lemma_tdiv_between(s0x, n0, d);
        lemma_tdiv_between(s0y, n0, d);
        lemma_tdiv_between(s0z, n0, d);
    }
}

/// Well-formedness bounds for everything `intercept_spec` computes from
/// in-range points, and hence for the crossing point itself.
pub proof fn lemma_intercept_wf(p0: Point, p1: Point, p2: Point, p3: Point)
    requires
        wf_point(p0),
        wf_point(p1),
    ensures
        match intercept_spec(p0, p1, p2, p3) {
            Some(ip) => wf_point(ip),
            None => true,
        },
{
    lemma_intercept_in_box(p0, p1, p2, p3);
}

/// `c * n / d` truncated toward zero, computed over magnitudes so the
/// division itself is on non-negative values.
fn mul_div_trunc(c: i64, n: i64, d: i64) -> (q: i64)
    requires
        0 < d <= 8 * COORD_LIMIT * COORD_LIMIT,
        0 <= n <= d,
        -2 * COORD_LIMIT <= c <= 2 * COORD_LIMIT,
    ensures
        q == tdiv(c * n, d as int),
        c >= 0 ==> 0 <= q <= c,
        c < 0 ==> c <= q <= 0,
{
    proof {
        lemma_tdiv_between(c as int, n as int, d as int);
    }
    if c >= 0 {
        proof {
            assert(0 <= c * n && c * n < 0x20000000000000000) by (nonlinear_arith)
                requires
                    0 <= c <= 2 * COORD_LIMIT,
                    0 <= n <= 8 * COORD_LIMIT * COORD_LIMIT,
                    COORD_LIMIT == 1048576,
            ;
        }
        let prod: u128 = (c as u128) * (n as u128);
        (prod / (d as u128)) as i64
    } else {
        let m: i64 = -c;
        proof {
            assert(m * n == -(c * n) && 0 <= m * n && m * n < 0x20000000000000000)
                by (nonlinear_arith)
                requires
                    m == -c,
                    0 <= m <= 2 * COORD_LIMIT,
                    0 <= n <= 8 * COORD_LIMIT * COORD_LIMIT,
                    COORD_LIMIT == 1048576,
            ;
        }
        let prod: u128 = (m as u128) * (n as u128);
        let qm: u128 = prod / (d as u128);
        -(qm as i64)
    }
}

/// Exact 2D line-segment intersection with parametric rejection outside
/// `[0, 1]` on either segment; parallel lines (zero cross product) never
/// intersect, and a crossing at which the segment is not behind the
/// triangle's edge is discarded as non-occluding.
pub fn intercept_lines(p0: &Point, p1: &Point, p2: &Point, p3: &Point) -> (r: Option<Point>)
    requires
        wf_point(*p0),
        wf_point(*p1),
        wf_point(*p2),
        wf_point(*p3),
    ensures
        r == intercept_spec(*p0, *p1, *p2, *p3),
{
    let s0x: i64 = p1.x - p0.x;
    let s0y: i64 = p1.y - p0.y;
    let s0z: i64 = p1.z - p0.z;
    let s1x: i64 = p3.x - p2.x;
    let s1y: i64 = p3.y - p2.y;
    let s1z: i64 = p3.z - p2.z;
    proof {
        let l = COORD_LIMIT as int;
        lemma_mul_bound(s0x as int, s1y as int, 2 * l, 2 * l);
        lemma_mul_bound(s1x as int, s0y as int, 2 * l, 2 * l);
        lemma_mul_bound(s1x as int, p0.y - p2.y, 2 * l, 2 * l);
        lemma_mul_bound(s1y as int, p0.x - p2.x, 2 * l, 2 * l);
        lemma_mul_bound(s0x as int, p0.y - p2.y, 2 * l, 2 * l);
        lemma_mul_bound(s0y as int, p0.x - p2.x, 2 * l, 2 * l);
    }
    let d0: i64 = s0x * s1y - s1x * s0y;
    if d0 == 0 {
        return None;
    }
    let n0raw: i64 = s1x * (p0.y - p2.y) - s1y * (p0.x - p2.x);
    let n1raw: i64 = s0x * (p0.y - p2.y) - s0y * (p0.x - p2.x);
    let d: i64 = if d0 > 0 {
        d0
    } else {
        -d0
    };
    let n0: i64 = if d0 > 0 {
        n0raw
    } else {
        -n0raw
    };
    let n1: i64 = if d0 > 0 {
        n1raw
    } else {
        -n1raw
    };
    if n0 < 0 || n0 > d || n1 < 0 || n1 > d {
        return None;
    }
    proof {
        let l = COORD_LIMIT as int;
        lemma_mul_bound(p0.z as int, d as int, l, 8 * l * l);
        lemma_mul_bound(p2.z as int, d as int, l, 8 * l * l);
        lemma_mul_bound(s0z as int, n0 as int, 2 * l, 8 * l * l);
        lemma_mul_bound(s1z as int, n1 as int, 2 * l, 8 * l * l);
    }
    let lhs: i128 = (p0.z as i128) * (d as i128) + (s0z as i128) * (n0 as i128);
    let rhs: i128 = (p2.z as i128) * (d as i128) + (s1z as i128) * (n1 as i128);
    if lhs <= rhs {
        return None;
    }
    proof {
        lemma_intercept_in_box(*p0, *p1, *p2, *p3);
    }
    let qx: i64 = mul_div_trunc(s0x, n0, d);
    let qy: i64 = mul_div_trunc(s0y, n0, d);
    let qz: i64 = mul_div_trunc(s0z, n0, d);
    Some(Point { x: p0.x + qx, y: p0.y + qy, z: p0.z + qz })
}

/// The depth test over an exact barycentric record: the point's depth is
/// not behind the triangle's interpolated depth, `pz <= z_num/den`.  The
/// comparison is inclusive, so a point exactly on the triangle's plane
/// counts as not occluded, as a tolerance-widened test does for inexact
/// arithmetic.
pub open spec fn bary_depth_le(pz: int, b: Bary) -> bool {
    if b.den > 0 {
        pz * b.den <= b.z_num
    } else if b.den < 0 {
        pz * b.den >= b.z_num
    } else {
        false
    }
}

/// Decides `bary_depth_le` exactly, by sign-aware cross multiplication.
pub fn depth_le(pz: i64, b: &Bary) -> (r: bool)
    ensures
        r == bary_depth_le(pz as int, *b),
{
    proof {
        lemma_mul_bound(pz as int, b.den as int, 0x8000000000000000, 0x8000000000000000);
    }
    if b.den > 0 {
        (pz as i128) * (b.den as i128) <= b.z_num
    } else if b.den < 0 {
        (pz as i128) * (b.den as i128) >= b.z_num
    } else {
        false
    }
}

/// For a well-formed triangle and an in-range point, the exact depth test
/// over the barycentric record is the triangle's depth predicate.
pub proof fn lemma_depth_equiv(t: Triangle, p: Point)
    requires
        wf_triangle(t),
        wf_point(p),
    ensures
        bary_depth_le(p.z as int, bary_spec(t, p)) == depth_below(t, p),
{
    lemma_bary_bounds(t, p);
}

/// Classifies one segment against one triangle, mutating the segment in
/// place when clipping occurs and enqueueing the spawned remainder of a
/// split.  Returns exactly what `occlude_spec` says, so every branch of the
/// decision sequence is pinned down.
pub fn occlude(t: &Triangle, s: &mut Segment, work_queue: &mut WorkQueue) -> (rc: Occlude)
    requires
        wf_triangle(*t),
        wf_segment(*old(s)),
    ensures
        ({
            let r = occlude_spec(*t, *old(s));
            &&& rc == r.state
            &&& *final(s) == r.seg
            &&& wf_segment(*final(s))
            &&& match r.spawned {
                Some(n) => final(work_queue)@ == old(work_queue)@.push(n) && wf_segment(n),
                None => final(work_queue)@ == old(work_queue)@,
            }
        }),
{
    let ghost sin = *s;
    if t.is_invisible {
        return Occlude::NoOcclusion;
    }
    let seg_len = dist2(&s.p1, &s.p0);
    if seg_len < 1 {
        return Occlude::Hidden;
    }
    let p_max = v3max(&s.p0, &s.p1);
    let p_min = v3min(&s.p0, &s.p1);
    if p_max.z <= t.min.z {
        return Occlude::InFront;
    }
    if p_max.x < t.min.x || t.max.x < p_min.x {
        return Occlude::NoOcclusion;
    }
    if p_max.y < t.min.y || t.max.y < p_min.y {
        return Occlude::NoOcclusion;
    }
    let tp0 = t.bary_coord(&s.p0);
    let tp1 = t.bary_coord(&s.p1);
    let ins0 = inside(&tp0);
    let ins1 = inside(&tp1);
    if ins0 && ins1 {
        proof {
            lemma_depth_equiv(*t, sin.p0);
            lemma_depth_equiv(*t, sin.p1);
        }
        if depth_le(s.p0.z, &tp0) && depth_le(s.p1.z, &tp1) {
            return Occlude::NoOcclusion;
        }
        // the segment pierces the triangle's plane inside its footprint,
        // or something is degenerate about it; drop it conservatively
        return Occlude::Hidden;
    }
    let i01 = intercept_lines(&s.p0, &s.p1, &t.screen0, &t.screen1);
    let i12 = intercept_lines(&s.p0, &s.p1, &t.screen1, &t.screen2);
    let i20 = intercept_lines(&s.p0, &s.p1, &t.screen2, &t.screen0);
    proof {
        lemma_intercept_wf(sin.p0, sin.p1, t.screen0, t.screen1);
        lemma_intercept_wf(sin.p0, sin.p1, t.screen1, t.screen2);
        lemma_intercept_wf(sin.p0, sin.p1, t.screen2, t.screen0);
    }
    let mut isv: Vec<Point> = Vec::new();
    if let Some(p) = i01 {
        isv.push(p);
    }
    if let Some(p) = i12 {
        isv.push(p);
    }
    if let Some(p) = i20 {
        isv.push(p);
    }
    proof {
        assert(isv@ =~= intercepts_spec(*t, sin));
        assert(forall|i: int| 0 <= i < isv@.len() ==> wf_point(#[trigger] isv@[i]));
    }
    let ghost is0 = intercepts_spec(*t, sin);
    if isv.len() == 0 {
        return Occlude::NoOcclusion;
    }
    // normalize the raw crossing count (vertex-touching degeneracies can
    // report the same crossing on two edges)
    let ia: Point;
    let mut ib: Option<Point>;
    if isv.len() == 3 {
        if close_enough(&isv[0], &isv[2]) || close_enough(&isv[1], &isv[2]) {
            ia = isv[0];
            ib = Some(isv[1]);
        } else if close_enough(&isv[0], &isv[1]) {
            ia = isv[0];
            ib = Some(isv[2]);
        } else {
            // three distinct crossings: degenerate triangle, discard
            return Occlude::Hidden;
        }
    } else if isv.len() == 2 {
        ia = isv[0];
        ib = Some(isv[1]);
    } else {
        ia = isv[0];
        ib = None;
    }
    if let Some(bp) = ib {
        if close_enough(&ia, &bp) {
            ib = None;
        }
    }
    proof {
        let is1 = if is0.len() == 3 {
            if is0[0] == is0[2] || is0[1] == is0[2] {
                is0.take(2)
            } else {
                seq![is0[0], is0[2]]
            }
        } else {
            is0
        };
        let is2 = if is1.len() == 2 && is1[0] == is1[1] {
            is1.take(1)
        } else {
            is1
        };
        match ib {
            Some(bp) => {
                assert(is2 =~= seq![ia, bp]);
            },
            None => {
                assert(is2 =~= seq![ia]);
            },
        }
    }
    match ib {
        None => {
            if ins0 {
                // clipped from the crossing to p1
                s.p0 = ia;
                return Occlude::Clipped;
            }
            if ins1 {
                // clipped from p0 to the crossing
                s.p1 = ia;
                return Occlude::Clipped;
            }
            // a tangent touch: nothing is clipped
            return Occlude::NoOcclusion;
        },
        Some(bp) => {
            let d00 = dist2(&ia, &s.p0);
            let d01 = dist2(&bp, &s.p0);
            let d10 = dist2(&ia, &s.p1);
            let d11 = dist2(&bp, &s.p1);
            if d00 == 0 && d11 == 0 {
                // the segment coincides with the chord: wholly occluded
                return Occlude::Hidden;
            }
            if d01 == 0 && d10 == 0 {
                return Occlude::Hidden;
            }
            if d00 == 0 {
                s.p0 = bp;
                return Occlude::Clipped;
            }
            if d01 == 0 {
                s.p0 = ia;
                return Occlude::Clipped;
            }
            if d10 == 0 {
                s.p1 = bp;
                return Occlude::Clipped;
            }
            if d11 == 0 {
                s.p1 = ia;
                return Occlude::Clipped;
            }
            // neither crossing matches an endpoint: the occluded region is
            // strictly inside; the near remainder is queued for independent
            // testing and this segment shrinks to the far remainder
            if d00 > d01 {
                work_queue.push_back(Segment { p0: s.p0, p1: bp });
                s.p0 = ia;
                return Occlude::Split;
            } else {
                work_queue.push_back(Segment { p0: s.p0, p1: ia });
                s.p0 = bp;
                return Occlude::Split;
            }
        },
    }
}

/// The triangles of one column of cells, rows `ky` through `ky_max`.
pub open spec fn gather_row(m: Map<u64, Vec<Triangle>>, kx: int, ky: int, ky_max: int) -> Seq<
    Triangle,
>
    decreases ky_max - ky + 1,
{
    if ky > ky_max {
        Seq::empty()
    } else {
        cell_tris(m, kx, ky) + gather_row(m, kx, ky + 1, ky_max)
    }
}

/// The union (in cell order) of the triangles of every cell in the given
/// rectangle of grid cells.
pub open spec fn gather_rect(
    m: Map<u64, Vec<Triangle>>,
    kx: int,
    kx_max: int,
    ky_min: int,
    ky_max: int,
) -> Seq<Triangle>
    decreases kx_max - kx + 1,
{
    if kx > kx_max {
        Seq::empty()
    } else {
        gather_row(m, kx, ky_min, ky_max) + gather_rect(m, kx + 1, kx_max, ky_min, ky_max)
    }
}

/// The candidate triangles for a segment: everything in the cells covered
/// by the segment's 2D bounding box.
pub open spec fn candidates_spec(m: Map<u64, Vec<Triangle>>, s: Segment) -> Seq<Triangle> {
    gather_rect(
        m,
        key_coord_spec(spec_min(s.p0.x as int, s.p1.x as int)),
        key_coord_spec(spec_max(s.p0.x as int, s.p1.x as int)),
        key_coord_spec(spec_min(s.p0.y as int, s.p1.y as int)),
        key_coord_spec(spec_max(s.p0.y as int, s.p1.y as int)),
    )
}

/// The outcome of testing one segment against a candidate list: the visible
/// remainder (`None` when wholly hidden), the segment's final value, and the
/// spawned remainders, in order.
pub struct RunResult {
    pub visible: Option<Segment>,
    pub seg: Segment,
    pub spawned: Seq<Segment>,
}

/// What driving one segment through a candidate list does, in order:
/// invisible triangles are skipped; `Hidden` drops the segment at once
/// (already-spawned remainders stay queued); `InFront` stops testing and
/// reports the segment visible; everything else continues with the possibly
/// trimmed segment.
pub open spec fn run_spec(cands: Seq<Triangle>, s: Segment) -> RunResult
    decreases cands.len(),
{
    if cands.len() == 0 {
        RunResult { visible: Some(s), seg: s, spawned: Seq::empty() }
    } else {
        let t = cands[0];
        if t.is_invisible {
            run_spec(cands.skip(1), s)
        } else {
            let r = occlude_spec(t, s);
            if r.state == Occlude::Hidden {
                RunResult { visible: None, seg: r.seg, spawned: opt_seg_seq(r.spawned) }
            } else if r.state == Occlude::InFront {
                RunResult { visible: Some(r.seg), seg: r.seg, spawned: opt_seg_seq(r.spawned) }
            } else {
                let rest = run_spec(cands.skip(1), r.seg);
                RunResult {
                    visible: rest.visible,
                    seg: rest.seg,
                    spawned: opt_seg_seq(r.spawned) + rest.spawned,
                }
            }
        }
    }
}

/// Tests one segment against every candidate triangle from the spatial
/// index and returns the visible remainder, or `None` when the segment is
/// wholly hidden.  Segments spawned by splits are pushed onto the work
/// queue; the caller drains the queue through this same function until it is
/// empty and collects every visible result.
pub fn hidden_wire(
    s: &mut Segment,
    screen_map: &ScreenBucketMap,
    work_queue: &mut WorkQueue,
) -> (visible: Option<Segment>)
    requires
        wf_segment(*old(s)),
        wf_bucket_map(screen_map@),
    ensures
        ({
            let r = run_spec(candidates_spec(screen_map@, *old(s)), *old(s));
            &&& visible == r.visible
            &&& *final(s) == r.seg
            &&& wf_segment(*final(s))
            &&& final(work_queue)@ == old(work_queue)@ + r.spawned
        }),
{
    let ghost m = screen_map@;
    let ghost s_in = *s;
    let kx_min: u64 = key_coord(
        if s.p0.x <= s.p1.x {
            s.p0.x
        } else {
            s.p1.x
        },
    );
    let kx_max: u64 = key_coord(
        if s.p0.x >= s.p1.x {
            s.p0.x
        } else {
            s.p1.x
        },
    );
    let ky_min: u64 = key_coord(
        if s.p0.y <= s.p1.y {
            s.p0.y
        } else {
            s.p1.y
        },
    );
    let ky_max: u64 = key_coord(
        if s.p0.y >= s.p1.y {
            s.p0.y
        } else {
            s.p1.y
        },
    );
    let ghost full = gather_rect(m, kx_min as int, kx_max as int, ky_min as int, ky_max as int);
    let mut cands: Vec<Triangle> = Vec::new();
    let mut kx: u64 = kx_min;
    while kx <= kx_max
        invariant
            kx_min <= kx <= kx_max + 1,
            kx_max <= 65536,
            ky_min <= ky_max <= 65536,
            wf_bucket_map(m),
            m == screen_map@,
            cands@ + gather_rect(m, kx as int, kx_max as int, ky_min as int, ky_max as int)
                =~= full,
            forall|i: int| 0 <= i < cands@.len() ==> wf_triangle(#[trigger] cands@[i]),
        decreases kx_max + 1 - kx,
    {
        let mut ky: u64 = ky_min;
        while ky <= ky_max
            invariant
                kx_min <= kx <= kx_max,
                ky_min <= ky <= ky_max + 1,
                kx_max <= 65536,
                ky_max <= 65536,
                wf_bucket_map(m),
                m == screen_map@,
                cands@ + gather_row(m, kx as int, ky as int, ky_max as int) + gather_rect(
                    m,
                    kx as int + 1,
                    kx_max as int,
                    ky_min as int,
                    ky_max as int,
                ) =~= full,
                forall|i: int| 0 <= i < cands@.len() ==> wf_triangle(#[trigger] cands@[i]),
            decreases ky_max + 1 - ky,
        {
            match screen_map.get_cell(kx, ky) {
                Some(v) => {
                    let ghost start = cands@;
                    let mut j: usize = 0;
                    while j < v.len()
                        invariant
                            0 <= j <= v@.len(),
                            cands@ =~= start + v@.take(j as int),
                            v@ == cell_tris(m, kx as int, ky as int),
                            m.dom().contains(crate::screen_map::cell_key_spec(
                                kx as int,
                                ky as int,
                            ) as u64),
                            wf_bucket_map(m),
                        decreases v@.len() - j,
                    {
                        cands.push(v[j]);
                        j += 1;
                    }
                    proof {
                        assert(cands@ =~= start + cell_tris(m, kx as int, ky as int));
                    }
                },
                None => {
                    proof {
                        assert(cell_tris(m, kx as int, ky as int) =~= Seq::<Triangle>::empty());
                    }
                },
            }
            ky += 1;
        }
        kx += 1;
    }
    proof {
        assert(cands@ =~= full);
        assert(full == candidates_spec(m, s_in));
    }
    let ghost cands_all = cands@;
    let ghost mut acc: Seq<Segment> = Seq::empty();
    let mut idx: usize = 0;
    proof {
        assert(old(work_queue)@ + acc =~= old(work_queue)@);
        assert(cands_all.skip(0) =~= cands_all);
        assert(acc + run_spec(cands_all, s_in).spawned =~= run_spec(cands_all, s_in).spawned);
    }
    while idx < cands.len()
        invariant
            0 <= idx <= cands@.len(),
            cands@ == cands_all,
            m == screen_map@,
            s_in == *old(s),
            cands_all == candidates_spec(m, s_in),
            wf_segment(*s),
            forall|i: int| 0 <= i < cands@.len() ==> wf_triangle(#[trigger] cands@[i]),
            work_queue@ == old(work_queue)@ + acc,
            ({
                let fullr = run_spec(cands_all, s_in);
                let rest = run_spec(cands_all.skip(idx as int), *s);
                &&& fullr.visible == rest.visible
                &&& fullr.seg == rest.seg
                &&& fullr.spawned =~= acc + rest.spawned
            }),
        decreases cands@.len() - idx,
    {
        let t = cands[idx];
        let ghost s_before = *s;
        proof {
            assert(cands_all.skip(idx as int)[0] == t);
            assert(cands_all.skip(idx as int).skip(1) =~= cands_all.skip(idx as int + 1));
        }
        if !t.is_invisible {
            let ghost acc_old = acc;
            let rc = occlude(&t, s, work_queue);
            proof {
                let r = occlude_spec(t, s_before);
                acc = acc + opt_seg_seq(r.spawned);
                match r.spawned {
                    Some(n) => {
                        assert((old(work_queue)@ + acc_old).push(n) =~= old(work_queue)@ + (
                        acc_old + opt_seg_seq(r.spawned)));
                    },
                    None => {
                        assert(old(work_queue)@ + acc_old =~= old(work_queue)@ + (acc_old
                            + opt_seg_seq(r.spawned)));
                    },
                }
                assert(work_queue@ == old(work_queue)@ + acc);
            }
            if rc == Occlude::Hidden {
                proof {
                    let r = occlude_spec(t, s_before);
                    let fullr = run_spec(cands_all, s_in);
                    let rest = run_spec(cands_all.skip(idx as int), s_before);
                    assert(rest.visible == None::<Segment> && rest.seg == r.seg && rest.spawned
                        == opt_seg_seq(r.spawned));
                    assert(fullr.spawned =~= acc_old + opt_seg_seq(r.spawned));
                    assert(fullr.spawned =~= acc);
                }
                return None;
            }
            if rc == Occlude::InFront {
                // with candidates sorted nearest-first no remaining triangle
                // can occlude a segment that is in front of this one
                proof {
                    let r = occlude_spec(t, s_before);
                    let fullr = run_spec(cands_all, s_in);
                    let rest = run_spec(cands_all.skip(idx as int), s_before);
                    assert(rest.visible == Some(r.seg) && rest.seg == r.seg && rest.spawned
                        == opt_seg_seq(r.spawned));
                    assert(fullr.spawned =~= acc);
                }
                return Some(*s);
            }
            proof {
                let r = occlude_spec(t, s_before);
                let rest_old = run_spec(cands_all.skip(idx as int), s_before);
                let rest_new = run_spec(cands_all.skip(idx as int + 1), *s);
                assert(rest_old.visible == rest_new.visible && rest_old.seg == rest_new.seg
                    && rest_old.spawned == opt_seg_seq(r.spawned) + rest_new.spawned);
                assert(acc_old + rest_old.spawned =~= acc + rest_new.spawned);
            }
        }
        idx += 1;
    }
    proof {
        let fullr = run_spec(cands_all, s_in);
        assert(run_spec(cands_all.skip(idx as int), *s).visible == Some(*s));
        assert(fullr.spawned =~= acc);
    }
    // the remaining portion of the segment is visible
    Some(*s)
}

} // verus!

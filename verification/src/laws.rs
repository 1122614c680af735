//! The engine's guarantees, stated once over the spec functions that
//! `occlude` and `hidden_wire` are proved to implement.

use vstd::prelude::*;
use vstd::math::abs;
use crate::geom::{Point, spec_max, spec_min, sq_dist2};
use crate::hidden::{
    Occlude,
    Segment,
    in_seg_box,
    intercept_spec,
    intercepts_spec,
    lemma_intercept_in_box,
    lemma_tdiv_between,
    lemma_tdiv_exact,
    occ,
    occlude_spec,
    run_spec,
    tdiv,
};
use crate::triangle::Triangle;

verus! {

/// An invisible (back-facing or degenerate) triangle never affects a
/// segment: the classification is `NoOcclusion`, the segment is unchanged
/// and nothing is spawned.
pub proof fn lemma_invisible_no_effect(t: Triangle, s: Segment)
    requires
        t.is_invisible,
    ensures
        occlude_spec(t, s) == occ(Occlude::NoOcclusion, s, None::<Segment>),
{
}

/// A sub-pixel segment (squared 2D length below one) is always dropped as
/// `Hidden`, whatever visible triangle it is tested against.
pub proof fn lemma_subpixel_hidden(t: Triangle, s: Segment)
    requires
        !t.is_invisible,
        sq_dist2(s.p1, s.p0) < 1,
    ensures
        occlude_spec(t, s) == occ(Occlude::Hidden, s, None::<Segment>),
{
}

/// A segment whose 2D bounding box is disjoint from the triangle's is left
/// entirely alone: `NoOcclusion`, no mutation, nothing spawned.  (The
/// invisible, sub-pixel and in-front cases are decided earlier in the
/// sequence and are excluded here.)
pub proof fn lemma_bbox_disjoint_no_occlusion(t: Triangle, s: Segment)
    requires
        !t.is_invisible,
        sq_dist2(s.p1, s.p0) >= 1,
        spec_max(s.p0.z as int, s.p1.z as int) > t.min.z,
        spec_max(s.p0.x as int, s.p1.x as int) < t.min.x || t.max.x < spec_min(
            s.p0.x as int,
            s.p1.x as int,
        ) || spec_max(s.p0.y as int, s.p1.y as int) < t.min.y || t.max.y < spec_min(
            s.p0.y as int,
            s.p1.y as int,
        ),
    ensures
        occlude_spec(t, s) == occ(Occlude::NoOcclusion, s, None::<Segment>),
{
}

/// A point is inherited from the original segment: it is one of the
/// segment's endpoints or one of its crossings with the triangle's edges.
pub open spec fn from_original(t: Triangle, s: Segment, p: Point) -> bool {
    p == s.p0 || p == s.p1 || intercepts_spec(t, s).contains(p)
}

/// Every crossing of a segment with a triangle edge stays inside the
/// axis-aligned box of the segment's endpoints.
pub proof fn lemma_crossings_in_box(t: Triangle, s: Segment)
    ensures
        forall|i: int|
            0 <= i < intercepts_spec(t, s).len() ==> in_seg_box(
                #[trigger] intercepts_spec(t, s)[i],
                s,
            ),
{
    lemma_intercept_in_box(s.p0, s.p1, t.screen0, t.screen1);
    lemma_intercept_in_box(s.p0, s.p1, t.screen1, t.screen2);
    lemma_intercept_in_box(s.p0, s.p1, t.screen2, t.screen0);
}

/// Clipping and splitting never invent points: every endpoint of the
/// trimmed segment, and of the spawned remainder of a split, is an endpoint
/// of the original segment or one of its crossings with the triangle's
/// edges - and every such crossing lies inside the original segment's
/// bounding box (`lemma_crossings_in_box`).
pub proof fn lemma_clip_endpoints(t: Triangle, s: Segment)
    requires
        occlude_spec(t, s).state == Occlude::Clipped || occlude_spec(t, s).state == Occlude::Split,
    ensures
        from_original(t, s, occlude_spec(t, s).seg.p0),
        from_original(t, s, occlude_spec(t, s).seg.p1),
        occlude_spec(t, s).spawned matches Some(n) ==> from_original(t, s, n.p0)
            && from_original(t, s, n.p1),
{
    let is0 = intercepts_spec(t, s);
    if is0.len() == 3 {
        assert(is0.contains(is0[0]) && is0.contains(is0[1]) && is0.contains(is0[2]));
        assert(is0.take(2)[0] == is0[0] && is0.take(2)[1] == is0[1]);
    } else if is0.len() > 0 {
        assert(is0.contains(is0[0]));
        if is0.len() == 2 {
            assert(is0.contains(is0[1]));
            assert(is0.take(1)[0] == is0[0]);
        }
    }
}

/// A remainder is spawned exactly when the classification is `Split`.
pub proof fn lemma_spawn_only_on_split(t: Triangle, s: Segment)
    ensures
        (occlude_spec(t, s).spawned is Some) <==> occlude_spec(t, s).state == Occlude::Split,
{
}

/// A split spawns exactly one remainder.  The spawned piece keeps the
/// original `p0` and the trimmed piece keeps the original `p1`; the two
/// meeting points are crossings of the original segment with the
/// triangle's edges, distinct (in the screen plane) from both original
/// endpoints - so the two pieces cover the original segment apart from the
/// occluded gap strictly between the crossings - and the spawned piece's
/// meeting point is the crossing nearer to `p0`.
pub proof fn lemma_split_structure(t: Triangle, s: Segment)
    requires
        occlude_spec(t, s).state == Occlude::Split,
    ensures
        occlude_spec(t, s).spawned is Some,
        occlude_spec(t, s).spawned matches Some(n) ==> {
            let trimmed = occlude_spec(t, s).seg;
            &&& n.p0 == s.p0
            &&& trimmed.p1 == s.p1
            &&& intercepts_spec(t, s).contains(n.p1)
            &&& intercepts_spec(t, s).contains(trimmed.p0)
            &&& sq_dist2(n.p1, s.p0) != 0
            &&& sq_dist2(n.p1, s.p1) != 0
            &&& sq_dist2(trimmed.p0, s.p0) != 0
            &&& sq_dist2(trimmed.p0, s.p1) != 0
            &&& sq_dist2(n.p1, s.p0) <= sq_dist2(trimmed.p0, s.p0)
        },
{
    lemma_clip_endpoints(t, s);
    let is0 = intercepts_spec(t, s);
    if is0.len() == 3 {
        assert(is0.contains(is0[0]) && is0.contains(is0[1]) && is0.contains(is0[2]));
        assert(is0.take(2)[0] == is0[0] && is0.take(2)[1] == is0[1]);
    } else if is0.len() == 2 {
        assert(is0.contains(is0[0]) && is0.contains(is0[1]));
    }
}

/// Twice the signed area of the triangle `o a b`: the cross product of
/// `a - o` with `b - o`.  Zero exactly when the three points are collinear.
pub open spec fn cross2(o: Point, a: Point, b: Point) -> int {
    (a.x - o.x) * (b.y - o.y) - (b.x - o.x) * (a.y - o.y)
}

/// A crossing reported by `intercept_spec` never strays from the segment's
/// line by more than the coordinate rounding: the cross product of the
/// crossing with the segment's direction is bounded by the direction's
/// coordinate magnitudes (an exact point on the line has cross product
/// zero; each coordinate of the crossing is rounded by strictly less than
/// one unit).
pub proof fn lemma_intercept_near_line(p0: Point, p1: Point, p2: Point, p3: Point)
    ensures
        intercept_spec(p0, p1, p2, p3) matches Some(ip) ==> {
            let m = abs(p1.x - p0.x) + abs(p1.y - p0.y);
            -m <= cross2(p0, ip, p1) <= m
        },
{
    if intercept_spec(p0, p1, p2, p3) is Some {
        let ip = intercept_spec(p0, p1, p2, p3)->Some_0;
        let s0x = p1.x - p0.x;
        let s0y = p1.y - p0.y;
        let s1x = p3.x - p2.x;
        let s1y = p3.y - p2.y;
        let d0 = s0x * s1y - s1x * s0y;
        let d = if d0 > 0 {
            d0
        } else {
            -d0
        };
        let n0raw = s1x * (p0.y - p2.y) - s1y * (p0.x - p2.x);
        let n0 = if d0 > 0 {
            n0raw
        } else {
            -n0raw
        };
        let qx = tdiv(s0x * n0, d);
        let qy = tdiv(s0y * n0, d);
        lemma_tdiv_exact(s0x * n0, d);
        lemma_tdiv_exact(s0y * n0, d);
        lemma_tdiv_between(s0x, n0, d);
        lemma_tdiv_between(s0y, n0, d);
        let rx = s0x * n0 - d * qx;
        let ry = s0y * n0 - d * qy;
        assert(ip.x == p0.x + qx && ip.y == p0.y + qy);
        let c = cross2(p0, ip, p1);
        assert(c == (ip.x - p0.x) * (p1.y - p0.y) - (p1.x - p0.x) * (ip.y - p0.y));
        assert(c == qx * s0y - s0x * qy);
        assert(qx * s0y - s0x * qy == qx * s0y - qy * s0x) by (nonlinear_arith);
        let m = abs(s0x) + abs(s0y);
        assert(d * c == ry * s0x - rx * s0y) by (nonlinear_arith)
            requires
                c == qx * s0y - qy * s0x,
                rx == s0x * n0 - d * qx,
                ry == s0y * n0 - d * qy,
        ;
        assert(-(d * m) <= ry * s0x - rx * s0y <= d * m) by (nonlinear_arith)
            requires
                -d < rx < d,
                -d < ry < d,
                d > 0,
                m == abs(s0x) + abs(s0y),
                abs(s0x) >= s0x && abs(s0x) >= -s0x,
                abs(s0y) >= s0y && abs(s0y) >= -s0y,
        ;
        assert(-m <= c <= m) by (nonlinear_arith)
            requires
                d > 0,
                m >= 0,
                -(d * m) <= d * c <= d * m,
        ;
    }
}

/// Every crossing of a segment with the triangle's edges stays within
/// rounding distance of the segment's own line, so no `Clipped` or `Split`
/// endpoint moves off that line by more than one unit per axis.
pub proof fn lemma_crossings_near_line(t: Triangle, s: Segment)
    ensures
        forall|i: int|
            0 <= i < intercepts_spec(t, s).len() ==> {
                let m = abs(s.p1.x - s.p0.x) + abs(s.p1.y - s.p0.y);
                -m <= cross2(s.p0, #[trigger] intercepts_spec(t, s)[i], s.p1) <= m
            },
{
    lemma_intercept_near_line(s.p0, s.p1, t.screen0, t.screen1);
    lemma_intercept_near_line(s.p0, s.p1, t.screen1, t.screen2);
    lemma_intercept_near_line(s.p0, s.p1, t.screen2, t.screen0);
}

/// Both endpoints of `inner` lie inside the axis-aligned box of `outer`.
pub open spec fn seg_within(inner: Segment, outer: Segment) -> bool {
    in_seg_box(inner.p0, outer) && in_seg_box(inner.p1, outer)
}

/// Box containment is transitive: a point inside a segment's box is inside
/// the box of any segment that contains that one.
pub proof fn lemma_box_transitive(p: Point, inner: Segment, outer: Segment)
    requires
        in_seg_box(p, inner),
        seg_within(inner, outer),
    ensures
        in_seg_box(p, outer),
{
}

/// If a point `c` of the segment's box replaces `p0` and the original `p0`
/// still lies in the box of the result, then `c` was `p0` itself: moving an
/// endpoint strictly shrinks the box past the old endpoint.
pub proof fn lemma_box_pins_p0(c: Point, s: Segment)
    requires
        in_seg_box(c, s),
        in_seg_box(s.p0, Segment { p0: c, p1: s.p1 }),
    ensures
        c == s.p0,
{
}

/// The mirror image of `lemma_box_pins_p0` for the second endpoint.
pub proof fn lemma_box_pins_p1(c: Point, s: Segment)
    requires
        in_seg_box(c, s),
        in_seg_box(s.p1, Segment { p0: s.p0, p1: c }),
    ensures
        c == s.p1,
{
}

/// One `occlude` step never moves a segment outside its own box: the
/// trimmed segment's endpoints are original endpoints or crossings, and
/// crossings stay in the box.
pub proof fn lemma_occlude_seg_within(t: Triangle, s: Segment)
    ensures
        seg_within(occlude_spec(t, s).seg, s),
{
    lemma_crossings_in_box(t, s);
    let is0 = intercepts_spec(t, s);
    if is0.len() == 3 {
        assert(is0.take(2)[0] == is0[0] && is0.take(2)[1] == is0[1]);
    } else if is0.len() == 2 {
        assert(is0.take(1)[0] == is0[0]);
    }
}

/// A whole run never moves a segment outside its own box.
pub proof fn lemma_run_seg_within(cands: Seq<Triangle>, s: Segment)
    ensures
        seg_within(run_spec(cands, s).seg, s),
    decreases cands.len(),
{
    if cands.len() > 0 {
        let t = cands[0];
        if t.is_invisible {
            lemma_run_seg_within(cands.skip(1), s);
        } else {
            let r = occlude_spec(t, s);
            lemma_occlude_seg_within(t, s);
            if r.state != Occlude::Hidden && r.state != Occlude::InFront {
                lemma_run_seg_within(cands.skip(1), r.seg);
                let rest = run_spec(cands.skip(1), r.seg);
                lemma_box_transitive(rest.seg.p0, r.seg, s);
                lemma_box_transitive(rest.seg.p1, r.seg, s);
            }
        }
    }
}

/// A run that hands the segment back unchanged never clipped or split it on
/// the way: once an endpoint moves to a (distinct) crossing, the box
/// shrinks past the old endpoint and no later step can restore it.  So
/// nothing was spawned.
pub proof fn lemma_visible_unchanged_spawns_nothing(cands: Seq<Triangle>, s: Segment)
    requires
        run_spec(cands, s).visible == Some(s),
    ensures
        run_spec(cands, s).spawned == Seq::<Segment>::empty(),
    decreases cands.len(),
{
    if cands.len() > 0 {
        let t = cands[0];
        if t.is_invisible {
            lemma_visible_unchanged_spawns_nothing(cands.skip(1), s);
        } else {
            let r = occlude_spec(t, s);
            lemma_spawn_only_on_split(t, s);
            if r.state == Occlude::InFront {
                assert(run_spec(cands, s).spawned =~= Seq::<Segment>::empty());
            } else if r.state != Occlude::Hidden {
                let rest = run_spec(cands.skip(1), r.seg);
                lemma_run_visible_is_final(cands.skip(1), r.seg);
                assert(rest.seg == s);
                lemma_run_seg_within(cands.skip(1), r.seg);
                lemma_occlude_seg_within(t, s);
                // the original endpoints still lie in the trimmed segment's
                // box, so the trimmed segment is the original one
                if r.seg.p1 == s.p1 {
                    lemma_box_pins_p0(r.seg.p0, s);
                } else {
                    lemma_box_pins_p1(r.seg.p1, s);
                }
                assert(r.seg == s);
                if r.state == Occlude::Split {
                    lemma_split_structure(t, s);
                    assert(false);
                }
                lemma_visible_unchanged_spawns_nothing(cands.skip(1), s);
                assert(run_spec(cands, s).spawned =~= Seq::<Segment>::empty());
            }
        }
    }
}

/// `hidden_wire` reports as visible exactly the final value of the
/// segment it was given.
pub proof fn lemma_run_visible_is_final(cands: Seq<Triangle>, s: Segment)
    ensures
        run_spec(cands, s).visible matches Some(x) ==> run_spec(cands, s).seg == x,
    decreases cands.len(),
{
    if cands.len() > 0 {
        let t = cands[0];
        if t.is_invisible {
            lemma_run_visible_is_final(cands.skip(1), s);
        } else {
            let r = occlude_spec(t, s);
            if r.state != Occlude::Hidden && r.state != Occlude::InFront {
                lemma_run_visible_is_final(cands.skip(1), r.seg);
            }
        }
    }
}

/// Idempotence of the driver: a segment that one pass reported visible and
/// returned unchanged is reported visible and unchanged again by a second
/// pass against the same candidates, and neither pass enqueues anything.
pub proof fn lemma_rerun_unchanged(cands: Seq<Triangle>, s: Segment)
    requires
        run_spec(cands, s).visible == Some(s),
    ensures
        run_spec(cands, s).visible == Some(s),
        run_spec(cands, s).seg == s,
        run_spec(cands, s).spawned == Seq::<Segment>::empty(),
{
    lemma_run_visible_is_final(cands, s);
    lemma_visible_unchanged_spawns_nothing(cands, s);
}

} // verus!

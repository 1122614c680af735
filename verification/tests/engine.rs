use hiddenline::geom::Point;
use hiddenline::hidden::{hidden_wire, occlude, Occlude, Segment, WorkQueue};
use hiddenline::screen_map::ScreenBucketMap;
use hiddenline::triangle::Triangle;

fn p(x: i64, y: i64, z: i64) -> Point {
    Point::new(x, y, z)
}

/// A large triangle at depth zero spanning x in [-5, 15], y in [-5, 5].
fn big_flat_triangle(invisible: bool) -> Triangle {
    Triangle::new(p(-5, -5, 0), p(15, -5, 0), p(5, 5, 0), invisible)
}

/// A right triangle with corners (0,0), (10,0), (0,10) at depth zero.
fn right_triangle() -> Triangle {
    Triangle::new(p(0, 0, 0), p(10, 0, 0), p(0, 10, 0), false)
}

fn seg(a: Point, b: Point) -> Segment {
    Segment { p0: a, p1: b }
}

#[test]
fn invisible_triangle_has_no_effect() {
    let t = big_flat_triangle(true);
    let mut s = seg(p(0, 0, 5), p(10, 0, 5));
    let original = s;
    let mut q = WorkQueue::new();
    let rc = occlude(&t, &mut s, &mut q);
    assert_eq!(rc, Occlude::NoOcclusion);
    assert_eq!(s, original);
    assert_eq!(q.len(), 0);
}

#[test]
fn subpixel_segment_is_hidden() {
    let t = big_flat_triangle(false);
    let mut s = seg(p(3, 3, 5), p(3, 3, 5));
    let mut q = WorkQueue::new();
    let rc = occlude(&t, &mut s, &mut q);
    assert_eq!(rc, Occlude::Hidden);
    assert_eq!(q.len(), 0);
}

#[test]
fn disjoint_bounding_boxes_no_occlusion() {
    let t = big_flat_triangle(false);
    let mut s = seg(p(100, 100, 5), p(110, 100, 5));
    let original = s;
    let mut q = WorkQueue::new();
    let rc = occlude(&t, &mut s, &mut q);
    assert_eq!(rc, Occlude::NoOcclusion);
    assert_eq!(s, original);
    assert_eq!(q.len(), 0);
}

#[test]
fn segment_nearer_than_triangle_is_in_front() {
    let t = big_flat_triangle(false);
    let mut s = seg(p(0, 0, -5), p(10, 0, -5));
    let original = s;
    let mut q = WorkQueue::new();
    let rc = occlude(&t, &mut s, &mut q);
    assert_eq!(rc, Occlude::InFront);
    assert_eq!(s, original);
    assert_eq!(q.len(), 0);
}

#[test]
fn segment_behind_triangle_inside_footprint_is_hidden() {
    // both endpoints inside the footprint, triangle depth 0 below segment
    // depth 5 at both ends
    let t = big_flat_triangle(false);
    let mut s = seg(p(0, 0, 5), p(10, 0, 5));
    let mut q = WorkQueue::new();
    let rc = occlude(&t, &mut s, &mut q);
    assert_eq!(rc, Occlude::Hidden);
    assert_eq!(q.len(), 0);
}

#[test]
fn segment_in_front_inside_footprint_is_untouched() {
    // both endpoints inside the footprint and nearer than the triangle's
    // interpolated depth there (the triangle tilts away, so its nearest
    // corner is still in front of the segment and the in-front early exit
    // does not fire)
    let t = Triangle::new(p(-5, -5, 0), p(15, -5, 20), p(5, 5, 10), false);
    let mut s = seg(p(0, 0, 4), p(10, 0, 4));
    let original = s;
    let mut q = WorkQueue::new();
    let rc = occlude(&t, &mut s, &mut q);
    assert_eq!(rc, Occlude::NoOcclusion);
    assert_eq!(s, original);
    assert_eq!(q.len(), 0);
}

#[test]
fn segment_on_the_triangle_plane_is_not_occluded() {
    // a wireframe edge lying exactly on a depth-tilted triangle's plane,
    // inside its footprint: the inclusive depth comparison counts equality
    // as not occluded, so the edge survives its own (or a coplanar) face
    let t = Triangle::new(p(0, 0, 0), p(10, 0, 10), p(0, 10, 0), false);
    let mut s = seg(p(2, 2, 2), p(6, 2, 6));
    let original = s;
    let mut q = WorkQueue::new();
    let rc = occlude(&t, &mut s, &mut q);
    assert_eq!(rc, Occlude::NoOcclusion);
    assert_eq!(s, original);
    assert_eq!(q.len(), 0);
}

#[test]
fn one_crossing_clips_the_inside_endpoint() {
    // p0 inside the footprint, p1 outside; one crossing with the diagonal
    // edge at (8, 2)
    let t = right_triangle();
    let mut s = seg(p(2, 2, 5), p(12, 2, 5));
    let mut q = WorkQueue::new();
    let rc = occlude(&t, &mut s, &mut q);
    assert_eq!(rc, Occlude::Clipped);
    assert_eq!(s.p0, p(8, 2, 5));
    assert_eq!(s.p1, p(12, 2, 5));
    assert_eq!(q.len(), 0);
}

#[test]
fn two_crossings_split_the_segment() {
    // the segment runs straight through the triangle, crossing the left
    // edge at (0, 2) and the diagonal at (8, 2); neither crossing touches
    // an endpoint
    let t = right_triangle();
    let mut s = seg(p(-5, 2, 5), p(12, 2, 5));
    let mut q = WorkQueue::new();
    let rc = occlude(&t, &mut s, &mut q);
    assert_eq!(rc, Occlude::Split);
    // exactly one remainder is enqueued: the near piece, keeping p0
    assert_eq!(q.len(), 1);
    let spawned = q.pop_front().unwrap();
    assert_eq!(spawned.p0, p(-5, 2, 5));
    assert_eq!(spawned.p1, p(0, 2, 5));
    // the tested segment shrank to the far piece, keeping p1
    assert_eq!(s.p0, p(8, 2, 5));
    assert_eq!(s.p1, p(12, 2, 5));
}

#[test]
fn boundary_segment_behind_the_triangle_is_hidden() {
    // both endpoints sit exactly on the triangle's edges (the footprint
    // test is inclusive of the boundary) and behind the triangle
    let t = right_triangle();
    let mut s = seg(p(0, 2, 5), p(8, 2, 5));
    let mut q = WorkQueue::new();
    let rc = occlude(&t, &mut s, &mut q);
    assert_eq!(rc, Occlude::Hidden);
    assert_eq!(q.len(), 0);
}

#[test]
fn hidden_wire_drops_a_fully_occluded_segment() {
    let mut map = ScreenBucketMap::new();
    map.set_cell(0, 0, vec![big_flat_triangle(false)]);
    let mut s = seg(p(0, 0, 5), p(10, 0, 5));
    let mut q = WorkQueue::new();
    let visible = hidden_wire(&mut s, &map, &mut q);
    assert_eq!(visible, None);
    assert_eq!(q.len(), 0);
}

#[test]
fn hidden_wire_ignores_invisible_triangles() {
    let mut map = ScreenBucketMap::new();
    map.set_cell(0, 0, vec![big_flat_triangle(true)]);
    let mut s = seg(p(0, 0, 5), p(10, 0, 5));
    let original = s;
    let mut q = WorkQueue::new();
    let visible = hidden_wire(&mut s, &map, &mut q);
    assert_eq!(visible, Some(original));
    assert_eq!(s, original);
    assert_eq!(q.len(), 0);
}

#[test]
fn hidden_wire_on_an_empty_index_returns_the_segment() {
    // cells with no triangles are not an error: the segment passes through
    let map = ScreenBucketMap::new();
    let mut s = seg(p(0, 0, 5), p(10, 0, 5));
    let original = s;
    let mut q = WorkQueue::new();
    let visible = hidden_wire(&mut s, &map, &mut q);
    assert_eq!(visible, Some(original));
    assert_eq!(q.len(), 0);
}

#[test]
fn hidden_wire_is_idempotent_on_a_visible_segment() {
    let mut map = ScreenBucketMap::new();
    map.set_cell(0, 0, vec![big_flat_triangle(true)]);
    let mut s = seg(p(0, 0, 5), p(10, 0, 5));
    let mut q = WorkQueue::new();
    let first = hidden_wire(&mut s, &map, &mut q);
    assert_eq!(first, Some(s));
    let second = hidden_wire(&mut s, &map, &mut q);
    assert_eq!(second, first);
    assert_eq!(q.len(), 0);
}

#[test]
fn hidden_wire_splits_and_drains() {
    let mut map = ScreenBucketMap::new();
    map.set_cell(0, 0, vec![right_triangle()]);
    let mut s = seg(p(-5, 2, 5), p(12, 2, 5));
    let mut q = WorkQueue::new();
    let visible = hidden_wire(&mut s, &map, &mut q);
    // the far piece survives, trimmed to the diagonal crossing
    assert_eq!(visible, Some(seg(p(8, 2, 5), p(12, 2, 5))));
    // exactly one spawned remainder awaits retesting
    assert_eq!(q.len(), 1);
    let mut spawned = q.pop_front().unwrap();
    assert_eq!(spawned, seg(p(-5, 2, 5), p(0, 2, 5)));
    // draining the queue retests the remainder against the same index
    let rest = hidden_wire(&mut spawned, &map, &mut q);
    assert_eq!(rest, Some(seg(p(-5, 2, 5), p(0, 2, 5))));
    assert_eq!(q.len(), 0);
}

#[test]
fn in_front_stops_testing_remaining_candidates() {
    // the first candidate is wholly behind the segment, so testing stops
    // there and the second candidate (which would clip) is never reached
    let far = Triangle::new(p(-5, -5, 10), p(15, -5, 10), p(5, 5, 10), false);
    let clipper = right_triangle();
    let mut map = ScreenBucketMap::new();
    map.set_cell(0, 0, vec![far, clipper]);
    let mut s = seg(p(2, 2, 5), p(12, 2, 5));
    let original = s;
    let mut q = WorkQueue::new();
    let visible = hidden_wire(&mut s, &map, &mut q);
    assert_eq!(visible, Some(original));
    assert_eq!(s, original);
    assert_eq!(q.len(), 0);
}

#[test]
fn crossing_in_front_of_the_edge_does_not_count() {
    // the triangle tilts away: the segment crosses its diagonal edge where
    // the edge is farther than the segment, so that crossing is discarded;
    // the one remaining crossing with neither endpoint inside is a tangent
    // and nothing is clipped
    let t = Triangle::new(p(0, 0, 0), p(10, 0, 20), p(0, 10, 20), false);
    let mut s = seg(p(-5, 2, 5), p(12, 2, 5));
    let original = s;
    let mut q = WorkQueue::new();
    let rc = occlude(&t, &mut s, &mut q);
    assert_eq!(rc, Occlude::NoOcclusion);
    assert_eq!(s, original);
    assert_eq!(q.len(), 0);
}

#[test]
fn crossings_through_a_vertex_collapse() {
    // a segment passing exactly through a corner of the triangle reports
    // the same crossing on two edges; the duplicates collapse and the
    // endpoint on the far corner is clipped to the crossing
    let t = right_triangle();
    let mut s = seg(p(-5, -5, 5), p(5, 5, 5));
    let mut q = WorkQueue::new();
    let rc = occlude(&t, &mut s, &mut q);
    assert_eq!(rc, Occlude::Clipped);
    assert_eq!(s.p0, p(-5, -5, 5));
    assert_eq!(s.p1, p(0, 0, 5));
    assert_eq!(q.len(), 0);
}

#[test]
fn triangle_new_precomputes_bounds_and_edges() {
    let t = right_triangle();
    assert_eq!(t.min, p(0, 0, 0));
    assert_eq!(t.max, p(10, 10, 0));
    assert_eq!(t.t1, p(10, 0, 0));
    assert_eq!(t.t2, p(0, 10, 0));
    assert!(!t.is_invisible);
}

#[test]
fn bary_coord_is_exact() {
    let t = right_triangle();
    let b = t.bary_coord(&p(2, 2, 5));
    // denominator is twice the signed area; numerators are a and b scaled
    // by it: a = 0.2, b = 0.2 over d = 100
    assert_eq!(b.den, 100);
    assert_eq!(b.a_num, 20);
    assert_eq!(b.b_num, 20);
    // interpolated depth is zero everywhere on this triangle
    assert_eq!(b.z_num, 0);
}

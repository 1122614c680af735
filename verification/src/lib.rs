//! Hidden-line removal for wireframe rendering of triangulated surfaces.
//!
//! Given screen-space triangles and screen-space edge segments (all produced
//! by a camera projection that the application supplies), the visibility
//! engine computes, for every segment, the portion not obscured by any opaque
//! triangle: the caller projects triangles and edges once per camera
//! generation, populates the spatial index ([`screen_map`]), invokes
//! [`hidden::hidden_wire`] on every edge, and drains the work queue of
//! spawned sub-segments through the same function until it is empty.
//!
//! Coordinates are exact integer screen units, so every geometric predicate
//! in the engine is decided exactly: near-parallel lines are exactly the
//! ones with zero cross product, coincident crossings are exactly equal
//! points, and barycentric coordinates are kept as integer fractions instead
//! of being divided out.  The small floating-point tolerances such a
//! pipeline otherwise needs collapse to exact, boundary-inclusive
//! comparisons.  Only the crossing points themselves are rounded - toward
//! the segment's first endpoint, by less than one unit per axis, and never
//! off the segment's bounding box (see [`laws`]).

use vstd::prelude::*;

pub mod geom;
pub mod hidden;
pub mod laws;
pub mod screen_map;
pub mod triangle;

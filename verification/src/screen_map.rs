//! The spatial index: a mapping from discretized screen grid cells to the
//! triangles whose bounding box overlaps each cell, used as a broad-phase
//! filter so a segment is only tested against nearby triangles.
//!
//! Built once per camera generation and read-only during occlusion testing.
//! For the `InFront` early exit of the engine to be sound, the caller is
//! expected to store each cell's triangles sorted nearest-first; nothing
//! here depends on that order for the exactness of the classification
//! itself.

use vstd::prelude::*;
use std::collections::HashMap;
use crate::geom::wf_point;
use crate::triangle::{Triangle, wf_triangle};

verus! {

broadcast use vstd::std_specs::hash::group_hash_axioms;

/// Screen coordinates are discretized into square cells of this size.
pub const STL_KEY2D_SCALE: u64 = 16;

/// The grid-cell index of a screen coordinate: negative coordinates fall
/// into cell `0`, otherwise the coordinate divided by the cell size.
pub open spec fn key_coord_spec(v: int) -> int {
    if v <= 0 {
        0
    } else {
        v / 16
    }
}

/// The grid-cell index of one screen coordinate.
pub fn key_coord(v: i64) -> (r: u64)
    ensures
        r == key_coord_spec(v as int),
{
    if v <= 0 {
        0
    } else {
        (v as u64) / STL_KEY2D_SCALE
    }
}

/// The two cell indices packed into one map key.
pub open spec fn cell_key_spec(kx: int, ky: int) -> int {
    kx * 0x100000000 + ky
}

/// Packs two cell indices into one map key.
pub fn cell_key(kx: u64, ky: u64) -> (r: u64)
    requires
        kx < 0x100000000,
        ky < 0x100000000,
    ensures
        r == cell_key_spec(kx as int, ky as int),
{
    kx * 0x100000000 + ky
}

/// Every triangle stored in the map is well formed.
pub open spec fn wf_bucket_map(m: Map<u64, Vec<Triangle>>) -> bool {
    forall|k: u64, i: int|
        m.dom().contains(k) && 0 <= i < m[k]@.len() ==> wf_triangle(#[trigger] m[k]@[i])
}

/// The triangles of one cell, the empty sequence for a cell with no entry.
pub open spec fn cell_tris(m: Map<u64, Vec<Triangle>>, kx: int, ky: int) -> Seq<Triangle> {
    if m.dom().contains(cell_key_spec(kx, ky) as u64) {
        m[cell_key_spec(kx, ky) as u64]@
    } else {
        Seq::empty()
    }
}

/// A mapping from grid cells to the triangles overlapping each cell.
pub struct ScreenBucketMap {
    map: HashMap<u64, Vec<Triangle>>,
}

impl View for ScreenBucketMap {
    type V = Map<u64, Vec<Triangle>>;

    closed spec fn view(&self) -> Map<u64, Vec<Triangle>> {
        self.map@
    }
}

impl ScreenBucketMap {
    /// An empty spatial index.
    pub fn new() -> (r: ScreenBucketMap)
        ensures
            r@ == Map::<u64, Vec<Triangle>>::empty(),
    {
        ScreenBucketMap { map: HashMap::new() }
    }

    /// Stores the triangle list of one cell, replacing any previous list.
    /// For the engine's `InFront` early exit the list is expected sorted
    /// nearest-first.
    pub fn set_cell(&mut self, kx: u64, ky: u64, tris: Vec<Triangle>)
        requires
            kx < 0x100000000,
            ky < 0x100000000,
        ensures
            final(self)@ == old(self)@.insert(cell_key_spec(kx as int, ky as int) as u64, tris),
    {
        let key = cell_key(kx, ky);
        self.map.insert(key, tris);
    }

    /// The triangles of one cell; `None` for a cell never populated.  A
    /// lookup of an empty cell is not an error.
    pub fn get_cell(&self, kx: u64, ky: u64) -> (r: Option<&Vec<Triangle>>)
        requires
            kx < 0x100000000,
            ky < 0x100000000,
        ensures
            match r {
                Some(v) => cell_tris(self@, kx as int, ky as int) == v@ && self@.dom().contains(
                    cell_key_spec(kx as int, ky as int) as u64,
                ),
                None => cell_tris(self@, kx as int, ky as int) == Seq::<Triangle>::empty()
                    && !self@.dom().contains(cell_key_spec(kx as int, ky as int) as u64),
            },
    {
        let key = cell_key(kx, ky);
        self.map.get(&key)
    }
}

} // verus!

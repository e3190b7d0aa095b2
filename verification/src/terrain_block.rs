//! The mesh of one block, and the sizes of blocks and of their samples.
//!
//! Mesh and collider coordinates are fixed-point numbers: every coordinate
//! counts units of 1/1024 of a world unit. The vertex of any voxel of any
//! level of detail, and the midpoint of any four of them, is a whole number
//! of such units.

use crate::entity::EntityId;
use crate::lod::LODIndex;
use vstd::prelude::*;

verus! {

/// The width of a block in world units.
pub const BLOCK_WIDTH: i32 = 8;

/// The base-2 logarithm of [`BLOCK_WIDTH`].
pub const LG_WIDTH: i16 = 3;

/// The number of levels of detail at which a block can be meshed.
pub const NUM_LODS: u32 = 4;

/// The number of fixed-point units in one world unit.
pub const FIXED_ONE: i64 = 1024;

/// The base-2 logarithm of the voxel size at a level of detail.
pub open spec fn spec_lg_sample_size(lod: LODIndex) -> int {
    lod.0 as int
}

/// The number of voxels along an edge of a block at a level of detail.
pub open spec fn spec_edge_samples(lod: LODIndex) -> int {
    if lod.0 == 0 {
        8
    } else if lod.0 == 1 {
        4
    } else if lod.0 == 2 {
        2
    } else {
        1
    }
}

/// The base-2 logarithm of the voxel size at a level of detail.
pub fn lg_sample_size(lod: LODIndex) -> (lg: i16)
    requires
        lod.0 < NUM_LODS,
    ensures
        lg == spec_lg_sample_size(lod),
{
    lod.0 as i16
}

/// The number of voxels along an edge of a block at a level of detail.
pub fn edge_samples(lod: LODIndex) -> (n: i32)
    requires
        lod.0 < NUM_LODS,
    ensures
        n == spec_edge_samples(lod),
{
    if lod.0 == 0 {
        8
    } else if lod.0 == 1 {
        4
    } else if lod.0 == 2 {
        2
    } else {
        1
    }
}

/// A point of the world, in fixed-point units.
#[derive(Debug, Copy, Clone, PartialEq, Eq, Structural)]
pub struct Point3 {
    pub x: i64,
    pub y: i64,
    pub z: i64,
}

/// A triangle of a mesh.
#[derive(Debug, Copy, Clone, PartialEq, Eq, Structural)]
pub struct Triangle {
    pub v1: Point3,
    pub v2: Point3,
    pub v3: Point3,
}

/// Construct a triangle from its three corners.
pub fn tri(v1: Point3, v2: Point3, v3: Point3) -> (t: Triangle)
    ensures
        t == (Triangle { v1, v2, v3 }),
{
    Triangle { v1, v2, v3 }
}

/// An axis-aligned box, in fixed-point units.
#[derive(Debug, Copy, Clone, PartialEq, Eq, Structural)]
pub struct Aabb3 {
    pub min: Point3,
    pub max: Point3,
}

/// The mesh of one block at one level of detail: the triangles, and for
/// every triangle the entity that stands for it among the colliders and the
/// box that bounds it.
pub struct TerrainBlock {
    pub vertex_coordinates: Vec<Triangle>,
    pub ids: Vec<EntityId>,
    pub bounds: Vec<(EntityId, Aabb3)>,
}

/// The mesh of one block as plain lists.
pub struct TerrainBlockView {
    pub vertex_coordinates: Seq<Triangle>,
    pub ids: Seq<EntityId>,
    pub bounds: Seq<(EntityId, Aabb3)>,
}

impl View for TerrainBlock {
    type V = TerrainBlockView;

    open spec fn view(&self) -> TerrainBlockView {
        TerrainBlockView {
            vertex_coordinates: self.vertex_coordinates@,
            ids: self.ids@,
            bounds: self.bounds@,
        }
    }
}

impl TerrainBlockView {
    /// The three lists run in parallel: one entry of each per triangle, and
    /// every box is filed under the triangle's own entity.
    pub open spec fn wf(self) -> bool {
        &&& self.ids.len() == self.vertex_coordinates.len()
        &&& self.bounds.len() == self.vertex_coordinates.len()
        &&& forall|i: int| 0 <= i < self.bounds.len() ==> (#[trigger] self.bounds[i]).0 == self.ids[i]
    }
}

impl TerrainBlock {
    /// The three arrays run in parallel: one entry of each per triangle, and
    /// every box is filed under the triangle's own entity.
    pub open spec fn wf(self) -> bool {
        &&& self.ids@.len() == self.vertex_coordinates@.len()
        &&& self.bounds@.len() == self.vertex_coordinates@.len()
        &&& forall|i: int| 0 <= i < self.bounds@.len() ==> (#[trigger] self.bounds@[i]).0 == self.ids@[i]
    }

    /// A copy of the block.
    pub fn copy(&self) -> (b: TerrainBlock)
        ensures
            b@ == self@,
    {
        let mut b = TerrainBlock { vertex_coordinates: Vec::new(), ids: Vec::new(), bounds: Vec::new() };
        let mut i: usize = 0;
        while i < self.vertex_coordinates.len()
            invariant
                i <= self.vertex_coordinates@.len(),
                b.vertex_coordinates@ == self.vertex_coordinates@.take(i as int),
                b.ids@.len() == 0,
                b.bounds@.len() == 0,
            decreases self.vertex_coordinates@.len() - i,
        {
            b.vertex_coordinates.push(self.vertex_coordinates[i]);
            assert(b.vertex_coordinates@ =~= self.vertex_coordinates@.take(i + 1));
            i = i + 1;
        }
        assert(b.vertex_coordinates@ =~= self.vertex_coordinates@);
        let mut j: usize = 0;
        while j < self.ids.len()
            invariant
                j <= self.ids@.len(),
                b.vertex_coordinates@ == self.vertex_coordinates@,
                b.ids@ == self.ids@.take(j as int),
                b.bounds@.len() == 0,
            decreases self.ids@.len() - j,
        {
            b.ids.push(self.ids[j]);
            assert(b.ids@ =~= self.ids@.take(j + 1));
            j = j + 1;
        }
        assert(b.ids@ =~= self.ids@);
        let mut k: usize = 0;
        while k < self.bounds.len()
            invariant
                k <= self.bounds@.len(),
                b.vertex_coordinates@ == self.vertex_coordinates@,
                b.ids@ == self.ids@,
                b.bounds@ == self.bounds@.take(k as int),
            decreases self.bounds@.len() - k,
        {
            b.bounds.push(self.bounds[k]);
            assert(b.bounds@ =~= self.bounds@.take(k + 1));
            k = k + 1;
        }
        assert(b.bounds@ =~= self.bounds@);
        b
    }

    /// A mesh without triangles.
    pub fn empty() -> (b: TerrainBlock)
        ensures
            b.vertex_coordinates@.len() == 0,
            b.ids@.len() == 0,
            b.bounds@.len() == 0,
            b.wf(),
    {
        TerrainBlock { vertex_coordinates: Vec::new(), ids: Vec::new(), bounds: Vec::new() }
    }
}

} // verus!

//! Samples of the density field.
//!
//! The field itself is a function of real coordinates. Meshing only ever asks
//! whether a point is inside the volume, and only at points of a lattice: the
//! corners of voxels and points a quarter of a voxel in from them. A
//! `FieldSamples` holds those answers for a box of lattice points, with
//! lattice coordinates counting quarters of a voxel.

use crate::block_position::BlockPosition;
use crate::lod::LODIndex;
use crate::terrain_block::{edge_samples, lg_sample_size, spec_edge_samples, spec_lg_sample_size, NUM_LODS};
use crate::voxel::Bounds;
use vstd::prelude::*;

verus! {

/// The largest number of lattice points along an edge of a sampled box.
pub const MAX_REGION_WIDTH: usize = 1024;

/// The largest absolute lattice coordinate of the low corner of a sampled box.
pub const MAX_REGION_ORIGIN: i64 = 0x100_0000_0000;

/// A cube of lattice points. The spacing of the lattice is two to the power
/// `lg_unit` world units, and the cube has `width` points along every edge,
/// starting from `(min_x, min_y, min_z)`.
#[derive(Debug, Copy, Clone, PartialEq, Eq, Structural)]
pub struct SampleRegion {
    pub lg_unit: i32,
    pub min_x: i64,
    pub min_y: i64,
    pub min_z: i64,
    pub width: usize,
}

impl SampleRegion {
    /// The cube is no larger and no farther from the origin than the limits
    /// allow.
    pub open spec fn wf(self) -> bool {
        &&& self.width <= MAX_REGION_WIDTH
        &&& -MAX_REGION_ORIGIN <= self.min_x <= MAX_REGION_ORIGIN
        &&& -MAX_REGION_ORIGIN <= self.min_y <= MAX_REGION_ORIGIN
        &&& -MAX_REGION_ORIGIN <= self.min_z <= MAX_REGION_ORIGIN
    }

    /// The number of lattice points in the cube.
    pub open spec fn spec_len(self) -> int {
        self.width * self.width * self.width
    }

    /// Whether the lattice point is one of the cube's.
    pub open spec fn covers(self, ix: int, iy: int, iz: int) -> bool {
        &&& self.min_x <= ix < self.min_x + self.width
        &&& self.min_y <= iy < self.min_y + self.width
        &&& self.min_z <= iz < self.min_z + self.width
    }

    /// The place of a lattice point in the list of the cube's points, which
    /// runs through z fastest and x slowest.
    pub open spec fn index_of(self, ix: int, iy: int, iz: int) -> int {
        ((ix - self.min_x) * self.width + (iy - self.min_y)) * self.width + (iz - self.min_z)
    }

    /// The place of every point of the cube is within the list.
    pub proof fn lemma_index_in_range(self, ix: int, iy: int, iz: int)
        requires
            self.covers(ix, iy, iz),
        ensures
            0 <= self.index_of(ix, iy, iz) < self.spec_len(),
    {
        let w = self.width as int;
        let a = ix - self.min_x;
        let b = iy - self.min_y;
        let c = iz - self.min_z;
        assert(0 <= (a * w + b) * w + c < w * w * w) by (nonlinear_arith)
            requires
                0 <= a < w,
                0 <= b < w,
                0 <= c < w,
        ;
    }

    /// The number of lattice points in the cube.
    pub fn len(&self) -> (n: usize)
        requires
            self.wf(),
        ensures
            n == self.spec_len(),
    {
        let w = self.width;
        assert(w * w <= 1024 * 1024 && w * w * w <= 1024 * 1024 * 1024) by (nonlinear_arith)
            requires
                0 <= w <= 1024,
        ;
        w * w * w
    }

    /// The lattice points that meshing a block reads: the corners and inner
    /// points of the block's own voxels and of one layer of voxels around
    /// them.
    pub open spec fn spec_for_block(position: BlockPosition, lod: LODIndex) -> SampleRegion {
        let n = spec_edge_samples(lod);
        SampleRegion {
            lg_unit: (spec_lg_sample_size(lod) - 2) as i32,
            min_x: (4 * (position.x * n - 1)) as i64,
            min_y: (4 * (position.y * n - 1)) as i64,
            min_z: (4 * (position.z * n - 1)) as i64,
            width: (4 * n + 9) as usize,
        }
    }

    /// The lattice points that meshing a block reads.
    pub fn for_block(position: &BlockPosition, lod: LODIndex) -> (r: SampleRegion)
        requires
            position.in_range(),
            lod.0 < NUM_LODS,
        ensures
            r == SampleRegion::spec_for_block(*position, lod),
            r.wf(),
    {
        let n: i64 = edge_samples(lod) as i64;
        SampleRegion {
            lg_unit: lg_sample_size(lod) as i32 - 2,
            min_x: 4 * (position.x as i64 * n - 1),
            min_y: 4 * (position.y as i64 * n - 1),
            min_z: 4 * (position.z as i64 * n - 1),
            width: (4 * n + 9) as usize,
        }
    }
}

/// For every point of a cube of lattice points, whether the point is inside
/// the volume.
pub struct FieldSamples {
    region: SampleRegion,
    inside: Vec<bool>,
}

/// What a voxel generator reads of the field: whether each of the voxel's
/// eight corners is inside the volume, and the same for eight points a
/// quarter of the voxel's width in from the corners. Entry `4 * i + 2 * j + k`
/// is the point on the low (0) or high (1) side along x, y and z according to
/// `i`, `j` and `k`.
#[derive(Debug, Copy, Clone)]
pub struct VoxelSamples {
    pub corners: [bool; 8],
    pub interior: [bool; 8],
}

impl FieldSamples {
    /// The cube of lattice points that was sampled.
    pub closed spec fn spec_region(self) -> SampleRegion {
        self.region
    }

    /// There is one sample for every point of a well-formed cube.
    pub closed spec fn wf(self) -> bool {
        &&& self.region.wf()
        &&& self.inside@.len() == self.region.spec_len()
    }

    /// Whether the lattice point is inside the volume. Only meaningful for
    /// the points of the sampled cube.
    pub closed spec fn spec_contains(self, ix: int, iy: int, iz: int) -> bool {
        self.inside@[self.region.index_of(ix, iy, iz)]
    }

    /// Samples for a cube of lattice points, listed with z running fastest
    /// and x slowest. `None` unless there is exactly one sample for every
    /// point of a well-formed cube.
    pub fn new(region: SampleRegion, inside: Vec<bool>) -> (f: Option<FieldSamples>)
        ensures
            f is Some <==> region.wf() && inside@.len() == region.spec_len(),
            f matches Some(s) ==> {
                &&& s.wf()
                &&& s.spec_region() == region
                &&& forall|ix: int, iy: int, iz: int|
                    region.covers(ix, iy, iz) ==> s.spec_contains(ix, iy, iz) == inside@[region.index_of(
                        ix,
                        iy,
                        iz,
                    )]
            },
    {
        if region.width <= MAX_REGION_WIDTH && -MAX_REGION_ORIGIN <= region.min_x && region.min_x
            <= MAX_REGION_ORIGIN && -MAX_REGION_ORIGIN <= region.min_y && region.min_y
            <= MAX_REGION_ORIGIN && -MAX_REGION_ORIGIN <= region.min_z && region.min_z
            <= MAX_REGION_ORIGIN {
            if inside.len() == region.len() {
                return Some(FieldSamples { region, inside });
            }
        }
        None
    }

    /// The cube of lattice points that was sampled.
    pub fn region(&self) -> (r: SampleRegion)
        ensures
            r == self.spec_region(),
    {
        self.region
    }

    /// Whether the lattice point is inside the volume.
    pub fn contains(&self, ix: i64, iy: i64, iz: i64) -> (inside: bool)
        requires
            self.wf(),
            self.spec_region().covers(ix as int, iy as int, iz as int),
        ensures
            inside == self.spec_contains(ix as int, iy as int, iz as int),
    {
        let w = self.region.width;
        let a: usize = (ix - self.region.min_x) as usize;
        let b: usize = (iy - self.region.min_y) as usize;
        let c: usize = (iz - self.region.min_z) as usize;
        proof {
            self.region.lemma_index_in_range(ix as int, iy as int, iz as int);
            assert(0 <= a * w + b < w * w && w * w <= 1024 * 1024) by (nonlinear_arith)
                requires
                    0 <= a < w,
                    0 <= b < w,
                    w <= 1024,
            ;
            assert((a * w + b) * w <= 1024 * 1024 * 1024) by (nonlinear_arith)
                requires
                    0 <= a * w + b < 1024 * 1024,
                    0 <= w <= 1024,
            ;
        }
        self.inside[(a * w + b) * w + c]
    }

    /// Whether the samples are on the voxel's lattice and include the
    /// voxel's corners, and so all that lies between them.
    pub open spec fn covers_voxel(self, b: Bounds) -> bool {
        &&& self.spec_region().lg_unit == b.lg_size - 2
        &&& self.spec_region().covers(4 * b.x, 4 * b.y, 4 * b.z)
        &&& self.spec_region().covers(4 * b.x + 4, 4 * b.y + 4, 4 * b.z + 4)
    }

    /// Whether the corner of the voxel on the given sides is inside the
    /// volume.
    pub open spec fn corner(self, b: Bounds, i: int, j: int, k: int) -> bool {
        self.spec_contains(4 * b.x + 4 * i, 4 * b.y + 4 * j, 4 * b.z + 4 * k)
    }

    /// Whether the point a quarter of the voxel's width in from the corner
    /// on the given sides is inside the volume.
    pub open spec fn inner(self, b: Bounds, i: int, j: int, k: int) -> bool {
        self.spec_contains(4 * b.x + 1 + 2 * i, 4 * b.y + 1 + 2 * j, 4 * b.z + 1 + 2 * k)
    }

    /// What a voxel generator reads of the field for the voxel.
    pub open spec fn spec_voxel_samples(self, b: Bounds) -> VoxelSamples {
        VoxelSamples {
            corners: [
                self.corner(b, 0, 0, 0),
                self.corner(b, 0, 0, 1),
                self.corner(b, 0, 1, 0),
                self.corner(b, 0, 1, 1),
                self.corner(b, 1, 0, 0),
                self.corner(b, 1, 0, 1),
                self.corner(b, 1, 1, 0),
                self.corner(b, 1, 1, 1),
            ],
            interior: [
                self.inner(b, 0, 0, 0),
                self.inner(b, 0, 0, 1),
                self.inner(b, 0, 1, 0),
                self.inner(b, 0, 1, 1),
                self.inner(b, 1, 0, 0),
                self.inner(b, 1, 0, 1),
                self.inner(b, 1, 1, 0),
                self.inner(b, 1, 1, 1),
            ],
        }
    }

    /// What a voxel generator reads of the field for the voxel.
    pub fn voxel_samples(&self, voxel: &Bounds) -> (s: VoxelSamples)
        requires
            self.wf(),
            self.covers_voxel(*voxel),
        ensures
            s == self.spec_voxel_samples(*voxel),
    {
        let x: i64 = 4 * (voxel.x as i64);
        let y: i64 = 4 * (voxel.y as i64);
        let z: i64 = 4 * (voxel.z as i64);
        VoxelSamples {
            corners: [
                self.contains(x, y, z),
                self.contains(x, y, z + 4),
                self.contains(x, y + 4, z),
                self.contains(x, y + 4, z + 4),
                self.contains(x + 4, y, z),
                self.contains(x + 4, y, z + 4),
                self.contains(x + 4, y + 4, z),
                self.contains(x + 4, y + 4, z + 4),
            ],
            interior: [
                self.contains(x + 1, y + 1, z + 1),
                self.contains(x + 1, y + 1, z + 3),
                self.contains(x + 1, y + 3, z + 1),
                self.contains(x + 1, y + 3, z + 3),
                self.contains(x + 3, y + 1, z + 1),
                self.contains(x + 3, y + 1, z + 3),
                self.contains(x + 3, y + 3, z + 1),
                self.contains(x + 3, y + 3, z + 3),
            ],
        }
    }
}

} // verus!

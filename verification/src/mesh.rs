//! What the mesh of a block is: which edges of its voxels the surface
//! crosses, which triangles close the surface around them, and which voxels
//! are read to tell.

use crate::block_position::BlockPosition;
use crate::field::FieldSamples;
use crate::generate::voxel_at;
use crate::lod::LODIndex;
use crate::terrain_block::{NUM_LODS, Point3, spec_edge_samples, spec_lg_sample_size, Triangle};
use crate::voxel::{Bounds, SurfaceVoxel, Voxel};
use crate::voxel_tree::VoxelTree;
use vstd::prelude::*;

verus! {

/// The place `(dx, dy, dz)` voxels away from a place.
pub open spec fn shifted(b: Bounds, dx: int, dy: int, dz: int) -> Bounds {
    Bounds { x: (b.x + dx) as i32, y: (b.y + dy) as i32, z: (b.z + dz) as i32, lg_size: b.lg_size }
}

/// The neighbour that shares the edge leaving the low corner of a voxel
/// along the axis (0 for x, 1 for y, 2 for z).
pub open spec fn ahead(b: Bounds, axis: int) -> Bounds {
    if axis == 0 {
        shifted(b, 1, 0, 0)
    } else if axis == 1 {
        shifted(b, 0, 1, 0)
    } else {
        shifted(b, 0, 0, 1)
    }
}

/// The first of the two neighbours that touch the edge leaving the low
/// corner of a voxel along the axis.
pub open spec fn beside(b: Bounds, axis: int) -> Bounds {
    if axis == 0 {
        shifted(b, 0, -1, 0)
    } else if axis == 1 {
        shifted(b, 0, 0, -1)
    } else {
        shifted(b, -1, 0, 0)
    }
}

/// The second of the two neighbours that touch the edge leaving the low
/// corner of a voxel along the axis.
pub open spec fn behind(b: Bounds, axis: int) -> Bounds {
    if axis == 0 {
        shifted(b, 0, 0, -1)
    } else if axis == 1 {
        shifted(b, -1, 0, 0)
    } else {
        shifted(b, 0, -1, 0)
    }
}

/// The voxel width in world units at the voxel sizes that blocks are
/// meshed at.
pub open spec fn spec_voxel_width(lg: int) -> int {
    if lg <= 0 {
        1
    } else if lg == 1 {
        2
    } else if lg == 2 {
        4
    } else {
        8
    }
}

/// The vertex of a surface voxel as a point of the world, in quarters of a
/// fixed-point unit.
pub open spec fn spec_quarter_vertex(v: SurfaceVoxel, b: Bounds) -> Point3 {
    Point3 {
        x: ((b.x * 256 + v.inner_vertex.x.numerator) * spec_voxel_width(b.lg_size as int)) as i64,
        y: ((b.y * 256 + v.inner_vertex.y.numerator) * spec_voxel_width(b.lg_size as int)) as i64,
        z: ((b.z * 256 + v.inner_vertex.z.numerator) * spec_voxel_width(b.lg_size as int)) as i64,
    }
}

/// A point given in quarters of a fixed-point unit, in fixed-point units.
pub open spec fn times4(p: Point3) -> Point3 {
    Point3 { x: (4 * p.x) as i64, y: (4 * p.y) as i64, z: (4 * p.z) as i64 }
}

/// The midpoint of four points given in quarters of a fixed-point unit, in
/// fixed-point units.
pub open spec fn midpoint4(a: Point3, b: Point3, c: Point3, d: Point3) -> Point3 {
    Point3 {
        x: (a.x + b.x + c.x + d.x) as i64,
        y: (a.y + b.y + c.y + d.y) as i64,
        z: (a.z + b.z + c.z + d.z) as i64,
    }
}

/// Whether the voxel read at a place has a vertex.
pub open spec fn has_vertex(voxels: VoxelTree, field: FieldSamples, b: Bounds) -> bool {
    voxel_at(voxels, field, b) is Surface
}

/// The vertex of the voxel read at a place, in quarters of a fixed-point
/// unit. Only meaningful where the voxel has a vertex.
pub open spec fn vertex_at(voxels: VoxelTree, field: FieldSamples, b: Bounds) -> Point3 {
    match voxel_at(voxels, field, b) {
        Voxel::Surface(v) => spec_quarter_vertex(v, b),
        Voxel::Volume(_) => Point3 { x: 0, y: 0, z: 0 },
    }
}

/// Whether the surface passes between the low corner of the voxel and the
/// low corner of its neighbour along the axis. Only surface voxels start
/// such an edge.
pub open spec fn crossed(voxels: VoxelTree, field: FieldSamples, b: Bounds, axis: int) -> bool {
    match voxel_at(voxels, field, b) {
        Voxel::Surface(v) => v.corner_inside_surface != voxel_at(voxels, field, ahead(b, axis)).spec_corner_inside(),
        Voxel::Volume(_) => false,
    }
}

/// Whether the three other voxels around the edge that leaves the low
/// corner of the voxel along the axis all have a vertex.
pub open spec fn neighbours_ready(voxels: VoxelTree, field: FieldSamples, b: Bounds, axis: int) -> bool {
    &&& has_vertex(voxels, field, beside(b, axis))
    &&& has_vertex(voxels, field, behind(b, axis))
    &&& has_vertex(voxels, field, beside(behind(b, axis), axis))
}

/// The four triangles that close the surface around a crossed edge: a fan
/// around the midpoint of the vertices of the four voxels that touch the
/// edge, wound so that it faces out of the volume.
pub open spec fn quad(voxels: VoxelTree, field: FieldSamples, b: Bounds, axis: int) -> Seq<Triangle> {
    fan(
        vertex_at(voxels, field, beside(behind(b, axis), axis)),
        vertex_at(voxels, field, beside(b, axis)),
        vertex_at(voxels, field, b),
        vertex_at(voxels, field, behind(b, axis)),
        voxel_at(voxels, field, b).spec_corner_inside(),
    )
}

/// The triangles that the edge leaving the low corner of a voxel along the
/// axis adds to the mesh.
#[verifier::opaque]
pub open spec fn edge_triangles(voxels: VoxelTree, field: FieldSamples, b: Bounds, axis: int) -> Seq<Triangle> {
    if crossed(voxels, field, b, axis) {
        quad(voxels, field, b, axis)
    } else {
        Seq::empty()
    }
}

/// Whether the edge can be meshed: it is not crossed, or every voxel
/// around it has a vertex.
#[verifier::opaque]
pub open spec fn edge_ready(voxels: VoxelTree, field: FieldSamples, b: Bounds, axis: int) -> bool {
    crossed(voxels, field, b, axis) ==> neighbours_ready(voxels, field, b, axis)
}

/// Whether the samples are on the voxel's lattice and include everything
/// that is read of the voxel and of the voxels one step away from it.
pub open spec fn covers_around(field: FieldSamples, b: Bounds) -> bool {
    &&& i32::MIN < b.x < i32::MAX
    &&& i32::MIN < b.y < i32::MAX
    &&& i32::MIN < b.z < i32::MAX
    &&& field.covers_voxel(shifted(b, -1, -1, -1))
    &&& field.covers_voxel(shifted(b, 1, 1, 1))
}

pub(crate) proof fn lemma_covers_step(field: FieldSamples, b: Bounds, dx: int, dy: int, dz: int)
    requires
        covers_around(field, b),
        -1 <= dx <= 1,
        -1 <= dy <= 1,
        -1 <= dz <= 1,
    ensures
        field.covers_voxel(shifted(b, dx, dy, dz)),
{
}

/// Whether every coordinate of the triangle leaves room for arithmetic.
pub open spec fn triangle_in_range(t: Triangle) -> bool {
    &&& point_in_range(t.v1)
    &&& point_in_range(t.v2)
    &&& point_in_range(t.v3)
}

/// Whether every coordinate of the point leaves room for arithmetic.
pub open spec fn point_in_range(p: Point3) -> bool {
    &&& -0x4000_0000_0000 <= p.x <= 0x4000_0000_0000
    &&& -0x4000_0000_0000 <= p.y <= 0x4000_0000_0000
    &&& -0x4000_0000_0000 <= p.z <= 0x4000_0000_0000
}

/// Whether the point, given in quarters of a fixed-point unit, is small
/// enough to be one of four whose midpoint is in range.
pub open spec fn quarter_in_range(p: Point3) -> bool {
    &&& -0x400_0000_0000 <= p.x <= 0x400_0000_0000
    &&& -0x400_0000_0000 <= p.y <= 0x400_0000_0000
    &&& -0x400_0000_0000 <= p.z <= 0x400_0000_0000
}

/// The fan of four triangles around the midpoint of four vertices, given
/// in quarters of a fixed-point unit.
pub open spec fn fan(q1: Point3, q2: Point3, q3: Point3, q4: Point3, inside: bool) -> Seq<Triangle> {
    let c = midpoint4(q1, q2, q3, q4);
    let v1 = times4(q1);
    let v2 = times4(q2);
    let v3 = times4(q3);
    let v4 = times4(q4);
    if inside {
        seq![
            Triangle { v1: v2, v2: v1, v3: c },
            Triangle { v1: v3, v2: v2, v3: c },
            Triangle { v1: v4, v2: v3, v3: c },
            Triangle { v1: v1, v2: v4, v3: c },
        ]
    } else {
        seq![
            Triangle { v1: v1, v2: v2, v3: c },
            Triangle { v1: v2, v2: v3, v3: c },
            Triangle { v1: v3, v2: v4, v3: c },
            Triangle { v1: v4, v2: v1, v3: c },
        ]
    }
}

/// The places at which meshing the edge that leaves the low corner of a
/// voxel along an axis reads voxels: the neighbour along the axis, and
/// where the surface crosses the edge, the three other voxels around it.
#[verifier::opaque]
pub open spec fn edge_touched(voxels: VoxelTree, field: FieldSamples, b: Bounds, axis: int) -> Set<Bounds> {
    if crossed(voxels, field, b, axis) {
        set![ahead(b, axis)].union(set![beside(behind(b, axis), axis), beside(b, axis), behind(b, axis)])
    } else {
        set![ahead(b, axis)]
    }
}

/// The places at which meshing a voxel reads voxels: its own, and where it
/// has a vertex, those of the three edges that leave its low corner.
pub open spec fn cell_touched(voxels: VoxelTree, field: FieldSamples, b: Bounds) -> Set<Bounds> {
    if has_vertex(voxels, field, b) {
        set![b].union(edge_touched(voxels, field, b, 0)).union(edge_touched(voxels, field, b, 1)).union(
            edge_touched(voxels, field, b, 2),
        )
    } else {
        set![b]
    }
}

/// The triangles that a voxel adds to the mesh: those of the three edges
/// that leave its low corner.
pub open spec fn cell_triangles(voxels: VoxelTree, field: FieldSamples, b: Bounds) -> Seq<Triangle> {
    edge_triangles(voxels, field, b, 0) + edge_triangles(voxels, field, b, 1) + edge_triangles(
        voxels,
        field,
        b,
        2,
    )
}

/// Whether the three edges that leave the low corner of a voxel can be
/// meshed.
pub open spec fn cell_ready(voxels: VoxelTree, field: FieldSamples, b: Bounds) -> bool {
    &&& edge_ready(voxels, field, b, 0)
    &&& edge_ready(voxels, field, b, 1)
    &&& edge_ready(voxels, field, b, 2)
}

/// The place of the voxel `(dx, dy, dz)` voxels in from the low corner of a
/// block, at the voxel size of a level of detail.
pub open spec fn block_cell(position: BlockPosition, lod: LODIndex, dx: int, dy: int, dz: int) -> Bounds {
    let n = spec_edge_samples(lod);
    Bounds {
        x: (position.x * n + dx) as i32,
        y: (position.y * n + dy) as i32,
        z: (position.z * n + dz) as i32,
        lg_size: spec_lg_sample_size(lod) as i16,
    }
}

/// The triangles of the first `count` voxels of a row of a block: the
/// voxels `(dx, dy, 0)`, `(dx, dy, 1)` and so on.
pub open spec fn row_triangles(
    voxels: VoxelTree,
    field: FieldSamples,
    position: BlockPosition,
    lod: LODIndex,
    dx: int,
    dy: int,
    count: int,
) -> Seq<Triangle>
    decreases count,
{
    if count <= 0 {
        Seq::empty()
    } else {
        row_triangles(voxels, field, position, lod, dx, dy, count - 1) + cell_triangles(
            voxels,
            field,
            block_cell(position, lod, dx, dy, count - 1),
        )
    }
}

/// The triangles of the first `count` rows of a slab of a block: the rows
/// `(dx, 0)`, `(dx, 1)` and so on.
pub open spec fn slab_triangles(
    voxels: VoxelTree,
    field: FieldSamples,
    position: BlockPosition,
    lod: LODIndex,
    dx: int,
    count: int,
) -> Seq<Triangle>
    decreases count,
{
    if count <= 0 {
        Seq::empty()
    } else {
        slab_triangles(voxels, field, position, lod, dx, count - 1) + row_triangles(
            voxels,
            field,
            position,
            lod,
            dx,
            count - 1,
            spec_edge_samples(lod),
        )
    }
}

/// The triangles of the first `count` slabs of a block.
pub open spec fn slabs_triangles(
    voxels: VoxelTree,
    field: FieldSamples,
    position: BlockPosition,
    lod: LODIndex,
    count: int,
) -> Seq<Triangle>
    decreases count,
{
    if count <= 0 {
        Seq::empty()
    } else {
        slabs_triangles(voxels, field, position, lod, count - 1) + slab_triangles(
            voxels,
            field,
            position,
            lod,
            count - 1,
            spec_edge_samples(lod),
        )
    }
}

/// The triangles of the mesh of a block, in the order in which its voxels
/// are visited: x slowest, z fastest.
pub open spec fn spec_block_triangles(
    voxels: VoxelTree,
    field: FieldSamples,
    position: BlockPosition,
    lod: LODIndex,
) -> Seq<Triangle> {
    slabs_triangles(voxels, field, position, lod, spec_edge_samples(lod))
}

/// Whether every voxel of a row of a block can be meshed.
pub open spec fn row_ready(
    voxels: VoxelTree,
    field: FieldSamples,
    position: BlockPosition,
    lod: LODIndex,
    dx: int,
    dy: int,
) -> bool {
    forall|dz: int|
        0 <= dz < spec_edge_samples(lod) ==> cell_ready(voxels, field, #[trigger] block_cell(position, lod, dx, dy, dz))
}

/// Whether every voxel of a slab of a block can be meshed.
pub open spec fn slab_ready(
    voxels: VoxelTree,
    field: FieldSamples,
    position: BlockPosition,
    lod: LODIndex,
    dx: int,
) -> bool {
    forall|dy: int| 0 <= dy < spec_edge_samples(lod) ==> #[trigger] row_ready(voxels, field, position, lod, dx, dy)
}

/// Whether the block can be meshed: around every edge of its voxels that
/// the surface crosses, all four voxels have a vertex.
pub open spec fn mesh_ready(voxels: VoxelTree, field: FieldSamples, position: BlockPosition, lod: LODIndex) -> bool {
    forall|dx: int| 0 <= dx < spec_edge_samples(lod) ==> #[trigger] slab_ready(voxels, field, position, lod, dx)
}

/// Whether the tree stores every voxel of the block.
pub open spec fn block_stored(voxels: VoxelTree, position: BlockPosition, lod: LODIndex) -> bool {
    forall|dx: int, dy: int, dz: int|
        0 <= dx < spec_edge_samples(lod) && 0 <= dy < spec_edge_samples(lod) && 0 <= dz < spec_edge_samples(lod)
            ==> voxels.leaf(#[trigger] block_cell(position, lod, dx, dy, dz)) is Some
}

/// Whether the samples are those of the lattice of a level of detail and
/// include all that meshing a block reads.
pub open spec fn covers_block(field: FieldSamples, position: BlockPosition, lod: LODIndex) -> bool {
    let n = spec_edge_samples(lod);
    &&& field.spec_region().lg_unit == spec_lg_sample_size(lod) - 2
    &&& field.spec_region().covers(4 * (position.x * n - 1), 4 * (position.y * n - 1), 4 * (position.z * n - 1))
    &&& field.spec_region().covers(
        4 * (position.x * n + n + 1),
        4 * (position.y * n + n + 1),
        4 * (position.z * n + n + 1),
    )
}

/// The places at which meshing the first `count` voxels of a row of a
/// block reads voxels.
pub open spec fn row_touched(
    voxels: VoxelTree,
    field: FieldSamples,
    position: BlockPosition,
    lod: LODIndex,
    dx: int,
    dy: int,
    count: int,
) -> Set<Bounds>
    decreases count,
{
    if count <= 0 {
        Set::empty()
    } else {
        row_touched(voxels, field, position, lod, dx, dy, count - 1).union(
            cell_touched(voxels, field, block_cell(position, lod, dx, dy, count - 1)),
        )
    }
}

/// The places at which meshing the first `count` rows of a slab of a block
/// reads voxels.
pub open spec fn slab_touched(
    voxels: VoxelTree,
    field: FieldSamples,
    position: BlockPosition,
    lod: LODIndex,
    dx: int,
    count: int,
) -> Set<Bounds>
    decreases count,
{
    if count <= 0 {
        Set::empty()
    } else {
        slab_touched(voxels, field, position, lod, dx, count - 1).union(
            row_touched(voxels, field, position, lod, dx, count - 1, spec_edge_samples(lod)),
        )
    }
}

/// The places at which meshing the first `count` slabs of a block reads
/// voxels.
pub open spec fn slabs_touched(
    voxels: VoxelTree,
    field: FieldSamples,
    position: BlockPosition,
    lod: LODIndex,
    count: int,
) -> Set<Bounds>
    decreases count,
{
    if count <= 0 {
        Set::empty()
    } else {
        slabs_touched(voxels, field, position, lod, count - 1).union(
            slab_touched(voxels, field, position, lod, count - 1, spec_edge_samples(lod)),
        )
    }
}

/// The places at which meshing a block reads voxels, and at which the tree
/// stores a voxel afterwards whether it did before or not: every voxel of
/// the block, for every one of them that has a vertex its three neighbours
/// along the axes, and around every edge that the surface crosses the
/// three other voxels.
pub open spec fn spec_block_touched(
    voxels: VoxelTree,
    field: FieldSamples,
    position: BlockPosition,
    lod: LODIndex,
) -> Set<Bounds> {
    slabs_touched(voxels, field, position, lod, spec_edge_samples(lod))
}

pub(crate) proof fn lemma_covers_cell(field: FieldSamples, position: BlockPosition, lod: LODIndex, dx: int, dy: int, dz: int)
    requires
        covers_block(field, position, lod),
        position.in_range(),
        lod.0 < NUM_LODS,
        0 <= dx < spec_edge_samples(lod),
        0 <= dy < spec_edge_samples(lod),
        0 <= dz < spec_edge_samples(lod),
    ensures
        covers_around(field, block_cell(position, lod, dx, dy, dz)),
{
}

/// Whether the tree stores every voxel of a slab of a block.
pub open spec fn slab_stored(voxels: VoxelTree, position: BlockPosition, lod: LODIndex, dx: int) -> bool {
    forall|dy: int, dz: int|
        0 <= dy < spec_edge_samples(lod) && 0 <= dz < spec_edge_samples(lod) ==> voxels.leaf(
            #[trigger] block_cell(position, lod, dx, dy, dz),
        ) is Some
}

/// The largest number of triangles in the mesh of a block: twelve for
/// every voxel of the block.
pub open spec fn max_block_triangles(lod: LODIndex) -> int {
    12 * spec_edge_samples(lod) * spec_edge_samples(lod) * spec_edge_samples(lod)
}

/// The largest number of triangles in the mesh of a block.
pub fn block_triangle_limit(lod: LODIndex) -> (limit: u32)
    requires
        lod.0 < NUM_LODS,
    ensures
        limit == max_block_triangles(lod),
{
    if lod.0 == 0 {
        6144
    } else if lod.0 == 1 {
        768
    } else if lod.0 == 2 {
        96
    } else {
        12
    }
}

/// The mesh of a block has at most twelve triangles for every voxel of the
/// block.
pub proof fn lemma_block_triangles_bound(
    voxels: VoxelTree,
    field: FieldSamples,
    position: BlockPosition,
    lod: LODIndex,
)
    requires
        lod.0 < NUM_LODS,
    ensures
        spec_block_triangles(voxels, field, position, lod).len() <= max_block_triangles(lod),
{
    let n = spec_edge_samples(lod);
    lemma_slabs_bound(voxels, field, position, lod, n);
    assert(12 * n * n * n == n * (n * 12) * n) by (nonlinear_arith);
}

proof fn lemma_row_bound(
    voxels: VoxelTree,
    field: FieldSamples,
    position: BlockPosition,
    lod: LODIndex,
    dx: int,
    dy: int,
    count: int,
)
    requires
        0 <= count,
    ensures
        row_triangles(voxels, field, position, lod, dx, dy, count).len() <= 12 * count,
    decreases count,
{
    if count > 0 {
        lemma_row_bound(voxels, field, position, lod, dx, dy, count - 1);
        lemma_cell_bound(voxels, field, block_cell(position, lod, dx, dy, count - 1));
    }
}

proof fn lemma_fan_len(q1: Point3, q2: Point3, q3: Point3, q4: Point3, inside: bool)
    ensures
        fan(q1, q2, q3, q4, inside).len() == 4,
{
}

proof fn lemma_edge_bound(voxels: VoxelTree, field: FieldSamples, b: Bounds, axis: int)
    ensures
        edge_triangles(voxels, field, b, axis).len() <= 4,
{
    reveal(edge_triangles);
    lemma_fan_len(
        vertex_at(voxels, field, beside(behind(b, axis), axis)),
        vertex_at(voxels, field, beside(b, axis)),
        vertex_at(voxels, field, b),
        vertex_at(voxels, field, behind(b, axis)),
        voxel_at(voxels, field, b).spec_corner_inside(),
    );
}

proof fn lemma_cell_bound(voxels: VoxelTree, field: FieldSamples, b: Bounds)
    ensures
        cell_triangles(voxels, field, b).len() <= 12,
{
    lemma_edge_bound(voxels, field, b, 0);
    lemma_edge_bound(voxels, field, b, 1);
    lemma_edge_bound(voxels, field, b, 2);
}

proof fn lemma_slab_bound(
    voxels: VoxelTree,
    field: FieldSamples,
    position: BlockPosition,
    lod: LODIndex,
    dx: int,
    count: int,
)
    requires
        0 <= count,
        lod.0 < NUM_LODS,
    ensures
        slab_triangles(voxels, field, position, lod, dx, count).len() <= count * (spec_edge_samples(lod) * 12),
    decreases count,
{
    if count > 0 {
        let n = spec_edge_samples(lod);
        lemma_slab_bound(voxels, field, position, lod, dx, count - 1);
        lemma_row_bound(voxels, field, position, lod, dx, count - 1, n);
        assert((count - 1) * (n * 12) + 12 * n == count * (n * 12)) by (nonlinear_arith);
    }
}

proof fn lemma_slabs_bound(
    voxels: VoxelTree,
    field: FieldSamples,
    position: BlockPosition,
    lod: LODIndex,
    count: int,
)
    requires
        0 <= count,
        lod.0 < NUM_LODS,
    ensures
        slabs_triangles(voxels, field, position, lod, count).len() <= count * (spec_edge_samples(lod) * 12)
            * spec_edge_samples(lod),
    decreases count,
{
    if count > 0 {
        let n = spec_edge_samples(lod);
        lemma_slabs_bound(voxels, field, position, lod, count - 1);
        lemma_slab_bound(voxels, field, position, lod, count - 1, n);
        assert((count - 1) * (n * 12) * n + n * (n * 12) == count * (n * 12) * n) by (nonlinear_arith);
    }
}

} // verus!

//! Fields, the samples taken of them, and what follows for meshing from
//! the fact that all samples are samples of one field.

use crate::block_position::BlockPosition;
use crate::field::{FieldSamples, VoxelSamples};
use crate::generate::{inside_count, spec_generate_voxel, spec_voxel_of_samples, voxel_at, weight};
use crate::lod::LODIndex;
use crate::mesh::{
    ahead, behind, beside, block_cell, cell_ready, covers_around, covers_block, crossed,
    edge_ready, edge_triangles, lemma_covers_cell, lemma_covers_step, mesh_ready, row_ready,
    row_triangles, shifted, slab_ready, slab_triangles, slabs_triangles, spec_block_triangles,
};
use crate::stored::{keeps, read_alike};
use crate::terrain_block::{NUM_LODS, spec_edge_samples, spec_lg_sample_size};
use crate::voxel::Bounds;
use crate::voxel_tree::VoxelTree;
use vstd::prelude::*;

verus! {

/// Whether every voxel of one size that a tree stores is the one that the
/// field calls for, as far as the samples of the field include all that is
/// read of the voxel.
pub open spec fn agrees_with_field(voxels: VoxelTree, field: FieldSamples, lg: int) -> bool {
    forall|b: Bounds|
        b.lg_size == lg && field.covers_voxel(b) ==> voxel_at(voxels, field, b) == #[trigger] spec_generate_voxel(
            field,
            b,
        )
}

/// The low corner of a generated voxel is inside the volume where the
/// field says so.
pub proof fn lemma_generated_corner(field: FieldSamples, b: Bounds)
    ensures
        spec_generate_voxel(field, b).spec_corner_inside() == field.corner(b, 0, 0, 0),
{
}

/// Of eight points, at least those that are inside the volume are, and at
/// most all but those that are outside.
proof fn lemma_inside_count(flags: [bool; 8], i: int)
    requires
        0 <= i < 8,
    ensures
        weight(flags[i]) <= inside_count(flags) <= 7 + weight(flags[i]),
{
    if i == 0 {
    } else if i == 1 {
    } else if i == 2 {
    } else if i == 3 {
    } else if i == 4 {
    } else if i == 5 {
    } else if i == 6 {
    } else {
    }
}

/// A voxel with a corner inside the volume and a corner outside has a
/// vertex.
pub proof fn lemma_mixed_has_vertex(field: FieldSamples, b: Bounds, one: int, other: int)
    requires
        0 <= one < 8,
        0 <= other < 8,
        field.spec_voxel_samples(b).corners[one] != field.spec_voxel_samples(b).corners[other],
    ensures
        spec_generate_voxel(field, b) is Surface,
{
    let corners = field.spec_voxel_samples(b).corners;
    lemma_inside_count(corners, one);
    lemma_inside_count(corners, other);
}

/// Around an edge that the surface crosses, every voxel has a vertex: both
/// ends of the edge are corners of each of them. So a block can be meshed
/// while the tree stores only what the field calls for.
pub proof fn lemma_mesh_ready(voxels: VoxelTree, field: FieldSamples, position: BlockPosition, lod: LODIndex)
    requires
        position.in_range(),
        lod.0 < NUM_LODS,
        covers_block(field, position, lod),
        agrees_with_field(voxels, field, spec_lg_sample_size(lod)),
    ensures
        mesh_ready(voxels, field, position, lod),
{
    let n = spec_edge_samples(lod);
    assert forall|dx: int| 0 <= dx < n implies #[trigger] slab_ready(voxels, field, position, lod, dx) by {
        assert forall|dy: int| 0 <= dy < n implies #[trigger] row_ready(voxels, field, position, lod, dx, dy) by {
            assert forall|dz: int| 0 <= dz < n implies cell_ready(
                voxels,
                field,
                #[trigger] block_cell(position, lod, dx, dy, dz),
            ) by {
                let b = block_cell(position, lod, dx, dy, dz);
                lemma_covers_cell(field, position, lod, dx, dy, dz);
                lemma_edge_ready(voxels, field, b, 0);
                lemma_edge_ready(voxels, field, b, 1);
                lemma_edge_ready(voxels, field, b, 2);
            }
        }
    }
}

proof fn lemma_edge_ready(voxels: VoxelTree, field: FieldSamples, b: Bounds, axis: int)
    requires
        agrees_with_field(voxels, field, b.lg_size as int),
        covers_around(field, b),
        -0x7000_0000 <= b.x <= 0x7000_0000,
        -0x7000_0000 <= b.y <= 0x7000_0000,
        -0x7000_0000 <= b.z <= 0x7000_0000,
        0 <= axis <= 2,
    ensures
        edge_ready(voxels, field, b, axis),
{
    reveal(edge_ready);
    if crossed(voxels, field, b, axis) {
        let e = ahead(b, axis);
        let b1 = beside(b, axis);
        let b2 = behind(b, axis);
        let b12 = beside(behind(b, axis), axis);
        lemma_covers_step(field, b, 0, 0, 0);
        lemma_covers_step(field, b, e.x - b.x, e.y - b.y, e.z - b.z);
        lemma_covers_step(field, b, b1.x - b.x, b1.y - b.y, b1.z - b.z);
        lemma_covers_step(field, b, b2.x - b.x, b2.y - b.y, b2.z - b.z);
        lemma_covers_step(field, b, b12.x - b.x, b12.y - b.y, b12.z - b.z);
        assert(voxel_at(voxels, field, b) == spec_generate_voxel(field, b));
        assert(voxel_at(voxels, field, e) == spec_generate_voxel(field, e));
        assert(voxel_at(voxels, field, b1) == spec_generate_voxel(field, b1));
        assert(voxel_at(voxels, field, b2) == spec_generate_voxel(field, b2));
        assert(voxel_at(voxels, field, b12) == spec_generate_voxel(field, b12));
        lemma_generated_corner(field, b);
        lemma_generated_corner(field, e);
        lemma_edge_neighbours(field, b, axis);
    }
}

/// Where the two ends of the edge that leaves the low corner of a voxel
/// along an axis are not on the same side of the surface, the field calls
/// for a vertex in each of the three other voxels around the edge.
proof fn lemma_edge_neighbours(field: FieldSamples, b: Bounds, axis: int)
    requires
        -0x7000_0000 <= b.x <= 0x7000_0000,
        -0x7000_0000 <= b.y <= 0x7000_0000,
        -0x7000_0000 <= b.z <= 0x7000_0000,
        0 <= axis <= 2,
        field.corner(b, 0, 0, 0) != field.corner(ahead(b, axis), 0, 0, 0),
    ensures
        spec_generate_voxel(field, beside(b, axis)) is Surface,
        spec_generate_voxel(field, behind(b, axis)) is Surface,
        spec_generate_voxel(field, beside(behind(b, axis), axis)) is Surface,
{
    let b1 = beside(b, axis);
    let b2 = behind(b, axis);
    let b12 = beside(behind(b, axis), axis);
    if axis == 0 {
        lemma_shared_corners(field, b, b1, 0, 1, 0, 2, 6);
        lemma_shared_corners(field, b, b2, 0, 0, 1, 1, 5);
        lemma_shared_corners(field, b, b12, 0, 1, 1, 3, 7);
    } else if axis == 1 {
        lemma_shared_corners(field, b, b1, 0, 0, 1, 1, 3);
        lemma_shared_corners(field, b, b2, 1, 0, 0, 4, 6);
        lemma_shared_corners(field, b, b12, 1, 0, 1, 5, 7);
    } else {
        lemma_shared_corners(field, b, b1, 1, 0, 0, 4, 5);
        lemma_shared_corners(field, b, b2, 0, 1, 0, 2, 3);
        lemma_shared_corners(field, b, b12, 1, 1, 0, 6, 7);
    }
}

/// The corner of a voxel with the given number.
pub open spec fn corner_number(field: FieldSamples, b: Bounds, number: int) -> bool {
    field.corner(b, number / 4, (number / 2) % 2, number % 2)
}

/// A voxel has a vertex where two of its corners, named by their numbers,
/// are the two ends of an edge that the surface crosses. The voxel is the
/// one `(dx, dy, dz)` steps below the voxel whose low corner starts the
/// edge.
proof fn lemma_shared_corners(
    field: FieldSamples,
    b: Bounds,
    near: Bounds,
    dx: int,
    dy: int,
    dz: int,
    one: int,
    other: int,
)
    requires
        -0x7000_0000 <= b.x <= 0x7000_0000,
        -0x7000_0000 <= b.y <= 0x7000_0000,
        -0x7000_0000 <= b.z <= 0x7000_0000,
        near == shifted(b, -dx, -dy, -dz),
        0 <= dx <= 1 && 0 <= dy <= 1 && 0 <= dz <= 1,
        one == 4 * dx + 2 * dy + dz,
        0 <= other < 8,
        corner_number(field, near, one) == field.corner(b, 0, 0, 0),
        corner_number(field, near, other) != field.corner(b, 0, 0, 0),
    ensures
        spec_generate_voxel(field, near) is Surface,
{
    let c = field.spec_voxel_samples(near).corners;
    assert(c[0] == corner_number(field, near, 0));
    assert(c[1] == corner_number(field, near, 1));
    assert(c[2] == corner_number(field, near, 2));
    assert(c[3] == corner_number(field, near, 3));
    assert(c[4] == corner_number(field, near, 4));
    assert(c[5] == corner_number(field, near, 5));
    assert(c[6] == corner_number(field, near, 6));
    assert(c[7] == corner_number(field, near, 7));
    lemma_mixed_has_vertex(field, near, one, other);
}

/// Whether the samples are samples of a field that says of every point of
/// every lattice whether it is inside the volume. The field takes the
/// base-2 logarithm of the spacing of the lattice and the coordinates of
/// the point.
pub open spec fn samples_of(field: FieldSamples, ground: spec_fn(int, int, int, int) -> bool) -> bool {
    forall|ix: int, iy: int, iz: int|
        field.spec_region().covers(ix, iy, iz) ==> #[trigger] field.spec_contains(ix, iy, iz) == ground(
            field.spec_region().lg_unit as int,
            ix,
            iy,
            iz,
        )
}

/// What a voxel generator reads of a field for a voxel.
pub open spec fn samples_at(ground: spec_fn(int, int, int, int) -> bool, b: Bounds) -> VoxelSamples {
    let lg = b.lg_size - 2;
    let x = 4 * b.x;
    let y = 4 * b.y;
    let z = 4 * b.z;
    VoxelSamples {
        corners: [
            ground(lg, x, y, z),
            ground(lg, x, y, z + 4),
            ground(lg, x, y + 4, z),
            ground(lg, x, y + 4, z + 4),
            ground(lg, x + 4, y, z),
            ground(lg, x + 4, y, z + 4),
            ground(lg, x + 4, y + 4, z),
            ground(lg, x + 4, y + 4, z + 4),
        ],
        interior: [
            ground(lg, x + 1, y + 1, z + 1),
            ground(lg, x + 1, y + 1, z + 3),
            ground(lg, x + 1, y + 3, z + 1),
            ground(lg, x + 1, y + 3, z + 3),
            ground(lg, x + 3, y + 1, z + 1),
            ground(lg, x + 3, y + 1, z + 3),
            ground(lg, x + 3, y + 3, z + 1),
            ground(lg, x + 3, y + 3, z + 3),
        ],
    }
}

/// Whether every voxel of one size that a tree stores is the one that a
/// field calls for.
pub open spec fn grown_from(voxels: VoxelTree, ground: spec_fn(int, int, int, int) -> bool, lg: int) -> bool {
    forall|b: Bounds|
        b.lg_size == lg ==> ((#[trigger] voxels.leaf(b)) matches Some(v) ==> v == spec_voxel_of_samples(
            samples_at(ground, b),
        ))
}

/// The voxel that is generated from samples of a field is the one that the
/// field calls for.
pub proof fn lemma_samples_of(field: FieldSamples, ground: spec_fn(int, int, int, int) -> bool, b: Bounds)
    requires
        samples_of(field, ground),
        field.covers_voxel(b),
    ensures
        spec_generate_voxel(field, b) == spec_voxel_of_samples(samples_at(ground, b)),
{
    let s = field.spec_voxel_samples(b);
    let t = samples_at(ground, b);
    assert(s.corners =~= t.corners);
    assert(s.interior =~= t.interior);
}

/// A block can be meshed from samples of a field while the tree stores
/// only what that field calls for. A new tree stores nothing, and so is
/// such a tree for every field.
pub proof fn lemma_grown_mesh_ready(
    voxels: VoxelTree,
    ground: spec_fn(int, int, int, int) -> bool,
    field: FieldSamples,
    position: BlockPosition,
    lod: LODIndex,
)
    requires
        position.in_range(),
        lod.0 < NUM_LODS,
        covers_block(field, position, lod),
        samples_of(field, ground),
        grown_from(voxels, ground, spec_lg_sample_size(lod)),
    ensures
        mesh_ready(voxels, field, position, lod),
{
    assert forall|b: Bounds| b.lg_size == spec_lg_sample_size(lod) && field.covers_voxel(b) implies voxel_at(
        voxels,
        field,
        b,
    ) == #[trigger] spec_generate_voxel(field, b) by {
        lemma_samples_of(field, ground, b);
    }
    lemma_mesh_ready(voxels, field, position, lod);
}

/// Meshing from samples of a field leaves a tree that stores only what
/// that field calls for such a tree.
pub proof fn lemma_grown_kept(
    before: VoxelTree,
    after: VoxelTree,
    ground: spec_fn(int, int, int, int) -> bool,
    field: FieldSamples,
    lg: int,
)
    requires
        samples_of(field, ground),
        grown_from(before, ground, lg),
        read_alike(after, before, field, lg),
        keeps(after, before, field, lg),
    ensures
        grown_from(after, ground, lg),
{
    reveal(read_alike);
    reveal(keeps);
    assert forall|b: Bounds| b.lg_size == lg && (#[trigger] after.leaf(b)) is Some implies after.leaf(b)->Some_0
        == spec_voxel_of_samples(samples_at(ground, b)) by {
        assert(voxel_at(after, field, b) == voxel_at(before, field, b));
        if before.leaf(b) is None {
            lemma_samples_of(field, ground, b);
        }
    }
}

/// Whether meshing reads the same voxel at a place and at every place one
/// step away from it, whichever of two trees and samples it reads from.
pub open spec fn alike_around(
    voxels: VoxelTree,
    field: FieldSamples,
    voxels2: VoxelTree,
    field2: FieldSamples,
    b: Bounds,
) -> bool {
    forall|dx: int, dy: int, dz: int|
        -1 <= dx <= 1 && -1 <= dy <= 1 && -1 <= dz <= 1 ==> voxel_at(voxels, field, #[trigger] shifted(b, dx, dy, dz))
            == voxel_at(voxels2, field2, shifted(b, dx, dy, dz))
}

proof fn lemma_edge_alike(
    voxels: VoxelTree,
    field: FieldSamples,
    voxels2: VoxelTree,
    field2: FieldSamples,
    b: Bounds,
    axis: int,
)
    requires
        alike_around(voxels, field, voxels2, field2, b),
        -0x7000_0000 <= b.x <= 0x7000_0000,
        -0x7000_0000 <= b.y <= 0x7000_0000,
        -0x7000_0000 <= b.z <= 0x7000_0000,
        0 <= axis <= 2,
    ensures
        edge_triangles(voxels, field, b, axis) == edge_triangles(voxels2, field2, b, axis),
{
    reveal(edge_triangles);
    let e = ahead(b, axis);
    let b1 = beside(b, axis);
    let b2 = behind(b, axis);
    let b12 = beside(behind(b, axis), axis);
    assert(b == shifted(b, 0, 0, 0));
    assert(e == shifted(b, e.x - b.x, e.y - b.y, e.z - b.z));
    assert(b1 == shifted(b, b1.x - b.x, b1.y - b.y, b1.z - b.z));
    assert(b2 == shifted(b, b2.x - b.x, b2.y - b.y, b2.z - b.z));
    assert(b12 == shifted(b, b12.x - b.x, b12.y - b.y, b12.z - b.z));
}

proof fn lemma_row_alike(
    voxels: VoxelTree,
    field: FieldSamples,
    voxels2: VoxelTree,
    field2: FieldSamples,
    position: BlockPosition,
    lod: LODIndex,
    dx: int,
    dy: int,
    count: int,
)
    requires
        position.in_range(),
        lod.0 < NUM_LODS,
        0 <= dx < spec_edge_samples(lod),
        0 <= dy < spec_edge_samples(lod),
        0 <= count <= spec_edge_samples(lod),
        forall|x: int, y: int, z: int|
            0 <= x < spec_edge_samples(lod) && 0 <= y < spec_edge_samples(lod) && 0 <= z < spec_edge_samples(lod)
                ==> alike_around(voxels, field, voxels2, field2, #[trigger] block_cell(position, lod, x, y, z)),
    ensures
        row_triangles(voxels, field, position, lod, dx, dy, count) == row_triangles(
            voxels2,
            field2,
            position,
            lod,
            dx,
            dy,
            count,
        ),
    decreases count,
{
    if count > 0 {
        lemma_row_alike(voxels, field, voxels2, field2, position, lod, dx, dy, count - 1);
        let b = block_cell(position, lod, dx, dy, count - 1);
        lemma_edge_alike(voxels, field, voxels2, field2, b, 0);
        lemma_edge_alike(voxels, field, voxels2, field2, b, 1);
        lemma_edge_alike(voxels, field, voxels2, field2, b, 2);
    }
}

proof fn lemma_slab_alike(
    voxels: VoxelTree,
    field: FieldSamples,
    voxels2: VoxelTree,
    field2: FieldSamples,
    position: BlockPosition,
    lod: LODIndex,
    dx: int,
    count: int,
)
    requires
        position.in_range(),
        lod.0 < NUM_LODS,
        0 <= dx < spec_edge_samples(lod),
        0 <= count <= spec_edge_samples(lod),
        forall|x: int, y: int, z: int|
            0 <= x < spec_edge_samples(lod) && 0 <= y < spec_edge_samples(lod) && 0 <= z < spec_edge_samples(lod)
                ==> alike_around(voxels, field, voxels2, field2, #[trigger] block_cell(position, lod, x, y, z)),
    ensures
        slab_triangles(voxels, field, position, lod, dx, count) == slab_triangles(
            voxels2,
            field2,
            position,
            lod,
            dx,
            count,
        ),
    decreases count,
{
    if count > 0 {
        lemma_slab_alike(voxels, field, voxels2, field2, position, lod, dx, count - 1);
        lemma_row_alike(voxels, field, voxels2, field2, position, lod, dx, count - 1, spec_edge_samples(lod));
    }
}

proof fn lemma_slabs_alike(
    voxels: VoxelTree,
    field: FieldSamples,
    voxels2: VoxelTree,
    field2: FieldSamples,
    position: BlockPosition,
    lod: LODIndex,
    count: int,
)
    requires
        position.in_range(),
        lod.0 < NUM_LODS,
        0 <= count <= spec_edge_samples(lod),
        forall|x: int, y: int, z: int|
            0 <= x < spec_edge_samples(lod) && 0 <= y < spec_edge_samples(lod) && 0 <= z < spec_edge_samples(lod)
                ==> alike_around(voxels, field, voxels2, field2, #[trigger] block_cell(position, lod, x, y, z)),
    ensures
        slabs_triangles(voxels, field, position, lod, count) == slabs_triangles(voxels2, field2, position, lod, count),
    decreases count,
{
    if count > 0 {
        lemma_slabs_alike(voxels, field, voxels2, field2, position, lod, count - 1);
        lemma_slab_alike(voxels, field, voxels2, field2, position, lod, count - 1, spec_edge_samples(lod));
    }
}

/// The mesh of a block is a matter of the field alone: whatever trees two
/// generations start from, and whatever samples they read, they make the
/// same triangles in the same order, as long as the samples are samples of
/// one field and the trees store only what that field calls for.
pub proof fn lemma_deterministic(
    ground: spec_fn(int, int, int, int) -> bool,
    voxels: VoxelTree,
    field: FieldSamples,
    voxels2: VoxelTree,
    field2: FieldSamples,
    position: BlockPosition,
    lod: LODIndex,
)
    requires
        position.in_range(),
        lod.0 < NUM_LODS,
        covers_block(field, position, lod),
        covers_block(field2, position, lod),
        samples_of(field, ground),
        samples_of(field2, ground),
        grown_from(voxels, ground, spec_lg_sample_size(lod)),
        grown_from(voxels2, ground, spec_lg_sample_size(lod)),
    ensures
        mesh_ready(voxels, field, position, lod),
        mesh_ready(voxels2, field2, position, lod),
        spec_block_triangles(voxels, field, position, lod) == spec_block_triangles(voxels2, field2, position, lod),
{
    lemma_grown_mesh_ready(voxels, ground, field, position, lod);
    lemma_grown_mesh_ready(voxels2, ground, field2, position, lod);
    let n = spec_edge_samples(lod);
    assert forall|x: int, y: int, z: int| 0 <= x < n && 0 <= y < n && 0 <= z < n implies alike_around(
        voxels,
        field,
        voxels2,
        field2,
        #[trigger] block_cell(position, lod, x, y, z),
    ) by {
        let b = block_cell(position, lod, x, y, z);
        lemma_covers_cell(field, position, lod, x, y, z);
        lemma_covers_cell(field2, position, lod, x, y, z);
        assert forall|dx: int, dy: int, dz: int| -1 <= dx <= 1 && -1 <= dy <= 1 && -1 <= dz <= 1 implies voxel_at(
            voxels,
            field,
            #[trigger] shifted(b, dx, dy, dz),
        ) == voxel_at(voxels2, field2, shifted(b, dx, dy, dz)) by {
            let o = shifted(b, dx, dy, dz);
            lemma_covers_step(field, b, dx, dy, dz);
            lemma_covers_step(field2, b, dx, dy, dz);
            lemma_samples_of(field, ground, o);
            lemma_samples_of(field2, ground, o);
            assert(voxels.leaf(o) is Some ==> voxels.leaf(o)->Some_0 == spec_voxel_of_samples(samples_at(ground, o)));
            assert(voxels2.leaf(o) is Some ==> voxels2.leaf(o)->Some_0 == spec_voxel_of_samples(
                samples_at(ground, o),
            ));
        }
    }
    lemma_slabs_alike(voxels, field, voxels2, field2, position, lod, n);
}

} // verus!

//! Generation of voxels from samples of the field, and of the mesh of a
//! block from its voxels.

use crate::block_position::BlockPosition;
use crate::entity::EntityId;
use crate::field::{FieldSamples, VoxelSamples};
use crate::id_allocator::IdAllocator;
use crate::lod::LODIndex;
use crate::mesh::{
    block_stored, covers_block, lemma_block_triangles_bound, max_block_triangles, mesh_ready,
    spec_block_touched, spec_block_triangles, triangle_in_range,
};
use crate::mesher::mesh_block;
use crate::stored::{displaced, filled, keeps, leaf_once_stored, read_alike};
use crate::terrain_block::{
    Aabb3, FIXED_ONE, NUM_LODS, Point3, spec_lg_sample_size, TerrainBlock, TerrainBlockView,
    Triangle,
};
use crate::voxel::{Bounds, Fracu8, SurfaceVoxel, Vertex, Voxel};
use crate::voxel_tree::{MAX_LG_SIZE, MIN_LG_SIZE, nested, TreeBody, VoxelTree};
use vstd::prelude::*;

verus! {

/// One for a point inside the volume, zero for a point outside.
pub open spec fn weight(inside: bool) -> int {
    if inside {
        1
    } else {
        0
    }
}

/// How many of eight points are inside the volume.
pub open spec fn inside_count(flags: [bool; 8]) -> int {
    weight(flags[0]) + weight(flags[1]) + weight(flags[2]) + weight(flags[3]) + weight(flags[4])
        + weight(flags[5]) + weight(flags[6]) + weight(flags[7])
}

/// How many of eight points are inside the volume and on the high side
/// along the axis (0 for x, 1 for y, 2 for z).
pub open spec fn high_count(flags: [bool; 8], axis: int) -> int {
    if axis == 0 {
        weight(flags[4]) + weight(flags[5]) + weight(flags[6]) + weight(flags[7])
    } else if axis == 1 {
        weight(flags[2]) + weight(flags[3]) + weight(flags[6]) + weight(flags[7])
    } else {
        weight(flags[1]) + weight(flags[3]) + weight(flags[5]) + weight(flags[7])
    }
}

/// The position of a surface voxel's vertex along one axis, in 1/256 of the
/// voxel's width: the weighted mean of the positions of the sampled points
/// that are inside the volume. A corner weighs one and sits at 0 or 255; an
/// inner point weighs two and sits at 64 or 192.
pub open spec fn vertex_numerator(s: VoxelSamples, axis: int) -> int {
    let corners = high_count(s.corners, axis);
    let inner_high = high_count(s.interior, axis);
    let inner_low = inside_count(s.interior) - inner_high;
    (255 * corners + 2 * (64 * inner_low + 192 * inner_high)) / (inside_count(s.corners) + 2
        * inside_count(s.interior))
}

/// The voxel that the samples call for: all of one kind where the corners
/// agree, and otherwise a surface voxel that remembers its low corner.
pub open spec fn spec_voxel_of_samples(s: VoxelSamples) -> Voxel {
    if inside_count(s.corners) == 0 {
        Voxel::Volume(false)
    } else if inside_count(s.corners) == 8 {
        Voxel::Volume(true)
    } else {
        Voxel::Surface(
            SurfaceVoxel {
                inner_vertex: Vertex {
                    x: Fracu8 { numerator: vertex_numerator(s, 0) as u8 },
                    y: Fracu8 { numerator: vertex_numerator(s, 1) as u8 },
                    z: Fracu8 { numerator: vertex_numerator(s, 2) as u8 },
                },
                corner_inside_surface: s.corners[0],
            },
        )
    }
}

/// The vertex of a surface voxel lies within the voxel.
pub proof fn lemma_vertex_numerator_in_range(s: VoxelSamples, axis: int)
    requires
        inside_count(s.corners) > 0,
    ensures
        0 <= vertex_numerator(s, axis) <= 255,
{
    let corners = high_count(s.corners, axis);
    let inner_high = high_count(s.interior, axis);
    let inner_low = inside_count(s.interior) - inner_high;
    let total = inside_count(s.corners) + 2 * inside_count(s.interior);
    let sum = 255 * corners + 2 * (64 * inner_low + 192 * inner_high);
    assert(0 <= sum <= 255 * total);
    assert(0 <= sum / total <= 255) by (nonlinear_arith)
        requires
            0 <= sum <= 255 * total,
            total > 0,
    ;
}

fn weight_of(inside: bool) -> (w: u32)
    ensures
        w == weight(inside),
{
    if inside {
        1
    } else {
        0
    }
}

fn count_inside(flags: &[bool; 8]) -> (n: u32)
    ensures
        n == inside_count(*flags),
{
    weight_of(flags[0]) + weight_of(flags[1]) + weight_of(flags[2]) + weight_of(flags[3])
        + weight_of(flags[4]) + weight_of(flags[5]) + weight_of(flags[6]) + weight_of(flags[7])
}

fn count_high(flags: &[bool; 8], axis: u8) -> (n: u32)
    ensures
        n == high_count(*flags, axis as int),
{
    if axis == 0 {
        weight_of(flags[4]) + weight_of(flags[5]) + weight_of(flags[6]) + weight_of(flags[7])
    } else if axis == 1 {
        weight_of(flags[2]) + weight_of(flags[3]) + weight_of(flags[6]) + weight_of(flags[7])
    } else {
        weight_of(flags[1]) + weight_of(flags[3]) + weight_of(flags[5]) + weight_of(flags[7])
    }
}

fn numerator_along(s: &VoxelSamples, axis: u8) -> (n: u8)
    requires
        inside_count(s.corners) > 0,
    ensures
        n == vertex_numerator(*s, axis as int),
{
    let corners: u32 = count_high(&s.corners, axis);
    let inner_high: u32 = count_high(&s.interior, axis);
    let inner_low: u32 = count_inside(&s.interior) - inner_high;
    let total: u32 = count_inside(&s.corners) + 2 * count_inside(&s.interior);
    proof {
        lemma_vertex_numerator_in_range(*s, axis as int);
    }
    ((255 * corners + 2 * (64 * inner_low + 192 * inner_high)) / total) as u8
}

/// Make a voxel from what was sampled of the field at its corners and at
/// the points a quarter of its width in from them.
pub fn voxel_of_samples(s: &VoxelSamples) -> (v: Voxel)
    ensures
        v == spec_voxel_of_samples(*s),
{
    let inside: u32 = count_inside(&s.corners);
    if inside == 0 {
        Voxel::Volume(false)
    } else if inside == 8 {
        Voxel::Volume(true)
    } else {
        Voxel::Surface(
            SurfaceVoxel {
                inner_vertex: Vertex {
                    x: Fracu8::of(numerator_along(s, 0)),
                    y: Fracu8::of(numerator_along(s, 1)),
                    z: Fracu8::of(numerator_along(s, 2)),
                },
                corner_inside_surface: s.corners[0],
            },
        )
    }
}

/// The voxel that the field calls for at the given place.
pub open spec fn spec_generate_voxel(field: FieldSamples, b: Bounds) -> Voxel {
    spec_voxel_of_samples(field.spec_voxel_samples(b))
}

/// Generate the voxel at the given place from the samples of the field.
pub fn generate_voxel(field: &FieldSamples, voxel: &Bounds) -> (v: Voxel)
    requires
        field.wf(),
        field.covers_voxel(*voxel),
    ensures
        v == spec_generate_voxel(*field, *voxel),
{
    let s = field.voxel_samples(voxel);
    voxel_of_samples(&s)
}

/// The least of three numbers.
pub open spec fn min3(a: int, b: int, c: int) -> int {
    if a <= b && a <= c {
        a
    } else if b <= c {
        b
    } else {
        c
    }
}

/// The greatest of three numbers.
pub open spec fn max3(a: int, b: int, c: int) -> int {
    if a >= b && a >= c {
        a
    } else if b >= c {
        b
    } else {
        c
    }
}

/// The box that holds a triangle, made one world unit taller at the bottom
/// so that no triangle has a box without height.
pub open spec fn spec_make_bounds(t: Triangle) -> Aabb3 {
    Aabb3 {
        min: Point3 {
            x: min3(t.v1.x as int, t.v2.x as int, t.v3.x as int) as i64,
            y: (min3(t.v1.y as int, t.v2.y as int, t.v3.y as int) - FIXED_ONE) as i64,
            z: min3(t.v1.z as int, t.v2.z as int, t.v3.z as int) as i64,
        },
        max: Point3 {
            x: max3(t.v1.x as int, t.v2.x as int, t.v3.x as int) as i64,
            y: max3(t.v1.y as int, t.v2.y as int, t.v3.y as int) as i64,
            z: max3(t.v1.z as int, t.v2.z as int, t.v3.z as int) as i64,
        },
    }
}

fn least(a: i64, b: i64, c: i64) -> (m: i64)
    ensures
        m == min3(a as int, b as int, c as int),
{
    if a <= b && a <= c {
        a
    } else if b <= c {
        b
    } else {
        c
    }
}

fn greatest(a: i64, b: i64, c: i64) -> (m: i64)
    ensures
        m == max3(a as int, b as int, c as int),
{
    if a >= b && a >= c {
        a
    } else if b >= c {
        b
    } else {
        c
    }
}

/// The box that holds a triangle. Its low corner is no higher than its high
/// corner along every axis, with a world unit to spare along y.
pub fn make_bounds(t: &Triangle) -> (b: Aabb3)
    requires
        t.v1.y - FIXED_ONE >= i64::MIN,
        t.v2.y - FIXED_ONE >= i64::MIN,
        t.v3.y - FIXED_ONE >= i64::MIN,
    ensures
        b == spec_make_bounds(*t),
        b.min.x <= b.max.x,
        b.min.y + FIXED_ONE <= b.max.y,
        b.min.z <= b.max.z,
{
    Aabb3 {
        min: Point3 {
            x: least(t.v1.x, t.v2.x, t.v3.x),
            y: least(t.v1.y, t.v2.y, t.v3.y) - FIXED_ONE,
            z: least(t.v1.z, t.v2.z, t.v3.z),
        },
        max: Point3 {
            x: greatest(t.v1.x, t.v2.x, t.v3.x),
            y: greatest(t.v1.y, t.v2.y, t.v3.y),
            z: greatest(t.v1.z, t.v2.z, t.v3.z),
        },
    }
}

/// The voxel that meshing reads at a place: the one the tree stores there
/// or, where it stores none, the one that the field calls for.
pub open spec fn voxel_at(voxels: VoxelTree, field: FieldSamples, b: Bounds) -> Voxel {
    match voxels.leaf(b) {
        Some(v) => v,
        None => spec_generate_voxel(field, b),
    }
}

/// Read the voxel at a place and leave it stored in the tree. A voxel that
/// the tree does not store yet is generated from the field; so is one in
/// whose place the tree has a branch, which is overwritten.
pub fn get_voxel(voxels: &mut VoxelTree, field: &FieldSamples, bounds: &Bounds) -> (v: Voxel)
    requires
        old(voxels).wf(),
        field.wf(),
        field.covers_voxel(*bounds),
        MIN_LG_SIZE <= bounds.lg_size <= MAX_LG_SIZE,
    ensures
        final(voxels).wf(),
        v == voxel_at(*old(voxels), *field, *bounds),
        final(voxels).leaf(*bounds) == Some(v),
        forall|other: Bounds|
            other.lg_size == bounds.lg_size && other != *bounds ==> #[trigger] final(voxels).leaf(other)
                == old(voxels).leaf(other),
        read_alike(*final(voxels), *old(voxels), *field, bounds.lg_size as int),
        keeps(*final(voxels), *old(voxels), *field, bounds.lg_size as int),
        filled(*final(voxels), *old(voxels), *field, bounds.lg_size as int, set![*bounds]),
{
    let ghost before = *voxels;
    let ghost grown = before.grown_to_hold(*bounds);
    let slot = voxels.get_mut_or_create(bounds);
    proof {
        before.lemma_leaf_grown_to_hold(*bounds, *bounds);
    }
    let r: Voxel;
    match slot {
        TreeBody::Leaf(v) => {
            r = *v;
        },
        _ => {
            r = generate_voxel(field, bounds);
            *slot = TreeBody::Leaf(r);
        },
    }
    proof {
        assert(*voxels == grown.with_slot_of(*bounds, TreeBody::Leaf(r)));
        grown.lemma_leaf_with_slot_of(*bounds, TreeBody::Leaf(r), *bounds);
        assert forall|other: Bounds|
            other.lg_size == bounds.lg_size && other != *bounds implies #[trigger] voxels.leaf(other)
            == before.leaf(other) by {
            before.lemma_leaf_grown_to_hold(*bounds, other);
            grown.lemma_leaf_with_slot_of(*bounds, TreeBody::Leaf(r), other);
        }
        reveal(read_alike);
        reveal(keeps);
        reveal(filled);
        assert forall|o: Bounds| #[trigger] voxels.leaf(o) == leaf_once_stored(
            before,
            *field,
            bounds.lg_size as int,
            set![*bounds],
            o,
        ) by {
            before.lemma_leaf_grown_to_hold(*bounds, o);
            grown.lemma_leaf_after_write(*bounds, TreeBody::Leaf(r), o);
            if o.lg_size != bounds.lg_size {
                if nested(*bounds, o) {
                    assert(set![*bounds].contains(*bounds) && nested(*bounds, o));
                }
                if displaced(set![*bounds], o) {
                    let t = choose|t: Bounds| set![*bounds].contains(t) && #[trigger] nested(t, o);
                    assert(t == *bounds);
                }
            }
        }
        assert forall|o: Bounds| o.lg_size == bounds.lg_size implies #[trigger] voxel_at(
            *voxels,
            *field,
            o,
        ) == voxel_at(before, *field, o) by {
            if o != *bounds {
                assert(voxels.leaf(o) == before.leaf(o));
            }
        }
        assert forall|o: Bounds| o.lg_size == bounds.lg_size implies ((#[trigger] before.leaf(o)) is Some
            ==> voxels.leaf(o) == before.leaf(o)) && (before.leaf(o) is None && voxels.leaf(o) is Some
            ==> field.covers_voxel(o)) by {
            if o != *bounds {
                assert(voxels.leaf(o) == before.leaf(o));
            }
        }
    }
    r
}

/// Whether a mesh is made of the given triangles, with the entities of its
/// triangles numbered from `first` on and every triangle in its own box.
pub open spec fn is_mesh_of(mesh: TerrainBlockView, triangles: Seq<Triangle>, first: int) -> bool {
    &&& mesh.vertex_coordinates == triangles
    &&& mesh.ids.len() == triangles.len()
    &&& mesh.bounds.len() == triangles.len()
    &&& forall|i: int| 0 <= i < triangles.len() ==> (#[trigger] mesh.ids[i]) == EntityId((first + i) as u32)
    &&& forall|i: int|
        0 <= i < triangles.len() ==> (#[trigger] mesh.bounds[i]) == (
            EntityId((first + i) as u32),
            spec_make_bounds(triangles[i]),
        )
}

/// Whether a block is the mesh made of the given triangles, with the
/// entities of its triangles numbered from `first` on.
pub open spec fn is_block_of(block: TerrainBlock, triangles: Seq<Triangle>, first: int) -> bool {
    is_mesh_of(block@, triangles, first)
}

/// Whether the low corner of a box is no higher than its high corner along
/// every axis, with a world unit to spare along y.
pub open spec fn padded(b: Aabb3) -> bool {
    &&& b.min.x <= b.max.x
    &&& b.min.y + FIXED_ONE <= b.max.y
    &&& b.min.z <= b.max.z
}

/// The box that holds a triangle in range is padded.
pub proof fn lemma_make_bounds_padded(t: Triangle)
    requires
        triangle_in_range(t),
    ensures
        padded(spec_make_bounds(t)),
{
}

/// Generate a `TerrainBlock` based on a given position in a `VoxelTree`.
/// Any necessary voxels will be generated, and stay in the tree.
///
/// Around every edge that the surface crosses, all four voxels must have a
/// vertex. They do while the tree stores only what the field calls for;
/// `is_mesh_ready` tells.
pub fn generate_block(
    id_allocator: &mut IdAllocator,
    field: &FieldSamples,
    voxels: &mut VoxelTree,
    position: &BlockPosition,
    lod_index: LODIndex,
) -> (block: TerrainBlock)
    requires
        old(voxels).wf(),
        field.wf(),
        position.in_range(),
        lod_index.0 < NUM_LODS,
        covers_block(*field, *position, lod_index),
        mesh_ready(*old(voxels), *field, *position, lod_index),
        old(id_allocator).remaining() >= max_block_triangles(lod_index),
    ensures
        final(voxels).wf(),
        read_alike(*final(voxels), *old(voxels), *field, spec_lg_sample_size(lod_index)),
        keeps(*final(voxels), *old(voxels), *field, spec_lg_sample_size(lod_index)),
        is_block_of(
            block,
            spec_block_triangles(*old(voxels), *field, *position, lod_index),
            old(id_allocator).spec_next(),
        ),
        block.wf(),
        forall|i: int|
            0 <= i < block.vertex_coordinates@.len() ==> triangle_in_range(#[trigger] block.vertex_coordinates@[i]),
        forall|i: int| 0 <= i < block.bounds@.len() ==> padded((#[trigger] block.bounds@[i]).1),
        block_stored(*final(voxels), *position, lod_index),
        filled(
            *final(voxels),
            *old(voxels),
            *field,
            spec_lg_sample_size(lod_index),
            spec_block_touched(*old(voxels), *field, *position, lod_index),
        ),
        final(id_allocator).spec_next() == old(id_allocator).spec_next() + block.vertex_coordinates@.len(),
{
    let ghost triangles = spec_block_triangles(*voxels, *field, *position, lod_index);
    let ghost first = id_allocator.spec_next();
    proof {
        lemma_block_triangles_bound(*voxels, *field, *position, lod_index);
    }
    let polys = match mesh_block(voxels, field, position, lod_index) {
        Some(polys) => polys,
        None => vstd::pervasive::unreached(),
    };
    let mut block = TerrainBlock::empty();
    let mut i: usize = 0;
    proof {
        assert(block.vertex_coordinates@ =~= triangles.take(0));
    }
    while i < polys.len()
        invariant
            i <= polys@.len(),
            polys@ == triangles,
            forall|k: int| 0 <= k < polys@.len() ==> triangle_in_range(#[trigger] polys@[k]),
            id_allocator.spec_next() == first + i,
            first + polys@.len() <= u32::MAX,
            is_block_of(block, triangles.take(i as int), first),
            forall|k: int| 0 <= k < block.bounds@.len() ==> padded((#[trigger] block.bounds@[k]).1),
        decreases polys@.len() - i,
    {
        let t = polys[i];
        assert(triangle_in_range(polys@[i as int]));
        let id = EntityId(id_allocator.allocate());
        block.vertex_coordinates.push(t);
        block.ids.push(id);
        block.bounds.push((id, make_bounds(&t)));
        proof {
            assert(triangles.take(i + 1) =~= triangles.take(i as int).push(t));
            assert(block.vertex_coordinates@ == triangles.take(i + 1));
        }
        i = i + 1;
    }
    proof {
        assert(triangles.take(i as int) =~= triangles);
    }
    block
}

} // verus!

//! The walk through the voxels of a block that makes its mesh.

use crate::block_position::BlockPosition;
use crate::field::FieldSamples;
use crate::generate::{generate_voxel, get_voxel, voxel_at};
use crate::lod::LODIndex;
use crate::mesh::{
    ahead, behind, beside, block_cell, block_stored, cell_ready, cell_touched, cell_triangles,
    covers_around, covers_block, edge_ready, edge_touched, edge_triangles, fan, has_vertex,
    lemma_covers_cell, lemma_covers_step, mesh_ready, midpoint4, neighbours_ready, point_in_range,
    quarter_in_range, row_ready, row_touched, row_triangles, shifted, slab_ready, slab_stored,
    slab_touched, slab_triangles, slabs_touched, slabs_triangles, spec_block_touched,
    spec_block_triangles, spec_quarter_vertex, spec_voxel_width, times4, triangle_in_range,
    vertex_at,
};
use crate::stored::{
    filled, keeps, lemma_filled_at, lemma_filled_chain, lemma_filled_none, lemma_keeps_at,
    lemma_keeps_chain, lemma_read_alike_at, lemma_read_alike_back, lemma_read_alike_chain,
    lemma_read_alike_same, read_alike,
};
use crate::terrain_block::{
    edge_samples, lg_sample_size, NUM_LODS, Point3, spec_edge_samples, spec_lg_sample_size, tri,
    Triangle,
};
use crate::voxel::{Bounds, SurfaceVoxel, Voxel};
use crate::voxel_tree::{MAX_LG_SIZE, MIN_LG_SIZE, VoxelTree};
use vstd::prelude::*;

verus! {

fn voxel_width(lg: i16) -> (w: i64)
    ensures
        w == spec_voxel_width(lg as int),
{
    if lg <= 0 {
        1
    } else if lg == 1 {
        2
    } else if lg == 2 {
        4
    } else {
        8
    }
}

fn quarter_vertex(v: &SurfaceVoxel, b: &Bounds) -> (p: Point3)
    ensures
        p == spec_quarter_vertex(*v, *b),
        quarter_in_range(p),
{
    let w = voxel_width(b.lg_size);
    Point3 {
        x: (b.x as i64 * 256 + v.inner_vertex.x.numerator as i64) * w,
        y: (b.y as i64 * 256 + v.inner_vertex.y.numerator as i64) * w,
        z: (b.z as i64 * 256 + v.inner_vertex.z.numerator as i64) * w,
    }
}

fn shift(b: &Bounds, dx: i32, dy: i32, dz: i32) -> (r: Bounds)
    requires
        i32::MIN <= b.x + dx <= i32::MAX,
        i32::MIN <= b.y + dy <= i32::MAX,
        i32::MIN <= b.z + dz <= i32::MAX,
    ensures
        r == shifted(*b, dx as int, dy as int, dz as int),
{
    Bounds { x: b.x + dx, y: b.y + dy, z: b.z + dz, lg_size: b.lg_size }
}

/// Read a voxel while meshing: the tree may have changed since meshing
/// began, but what is read of it has not.
fn read_voxel(
    voxels: &mut VoxelTree,
    field: &FieldSamples,
    b: &Bounds,
    Ghost(origin): Ghost<VoxelTree>,
    Ghost(start): Ghost<VoxelTree>,
) -> (v: Voxel)
    requires
        old(voxels).wf(),
        field.wf(),
        field.covers_voxel(*b),
        MIN_LG_SIZE <= b.lg_size <= MAX_LG_SIZE,
        read_alike(*old(voxels), origin, *field, b.lg_size as int),
        keeps(*old(voxels), start, *field, b.lg_size as int),
    ensures
        final(voxels).wf(),
        read_alike(*final(voxels), origin, *field, b.lg_size as int),
        keeps(*final(voxels), start, *field, b.lg_size as int),
        filled(*final(voxels), *old(voxels), *field, b.lg_size as int, set![*b]),
        final(voxels).leaf(*b) is Some,
        v == voxel_at(origin, *field, *b),
{
    let ghost before = *voxels;
    let v = get_voxel(voxels, field, b);
    proof {
        lemma_read_alike_at(before, origin, *field, *b);
        lemma_read_alike_chain(*voxels, before, origin, *field, b.lg_size as int);
        lemma_keeps_chain(*voxels, before, start, *field, b.lg_size as int);
    }
    v
}

/// Read the vertex of the voxel at a place, where it has one.
fn neighbour_vertex(
    voxels: &mut VoxelTree,
    field: &FieldSamples,
    b: &Bounds,
    Ghost(origin): Ghost<VoxelTree>,
    Ghost(start): Ghost<VoxelTree>,
) -> (p: Option<Point3>)
    requires
        old(voxels).wf(),
        field.wf(),
        field.covers_voxel(*b),
        MIN_LG_SIZE <= b.lg_size <= MAX_LG_SIZE,
        read_alike(*old(voxels), origin, *field, b.lg_size as int),
        keeps(*old(voxels), start, *field, b.lg_size as int),
    ensures
        final(voxels).wf(),
        read_alike(*final(voxels), origin, *field, b.lg_size as int),
        keeps(*final(voxels), start, *field, b.lg_size as int),
        filled(*final(voxels), *old(voxels), *field, b.lg_size as int, set![*b]),
        p is Some <==> has_vertex(origin, *field, *b),
        p matches Some(q) ==> q == vertex_at(origin, *field, *b) && quarter_in_range(q),
{
    match read_voxel(voxels, field, b, Ghost(origin), Ghost(start)) {
        Voxel::Surface(v) => Some(quarter_vertex(&v, b)),
        Voxel::Volume(_) => None,
    }
}

fn scaled4(p: &Point3) -> (r: Point3)
    requires
        quarter_in_range(*p),
    ensures
        r == times4(*p),
        point_in_range(r),
{
    Point3 { x: 4 * p.x, y: 4 * p.y, z: 4 * p.z }
}

fn midpoint(a: &Point3, b: &Point3, c: &Point3, d: &Point3) -> (r: Point3)
    requires
        quarter_in_range(*a),
        quarter_in_range(*b),
        quarter_in_range(*c),
        quarter_in_range(*d),
    ensures
        r == midpoint4(*a, *b, *c, *d),
        point_in_range(r),
{
    Point3 { x: a.x + b.x + c.x + d.x, y: a.y + b.y + c.y + d.y, z: a.z + b.z + c.z + d.z }
}

/// Add the fan of four triangles around the midpoint of four vertices.
fn push_fan(polys: &mut Vec<Triangle>, q1: &Point3, q2: &Point3, q3: &Point3, q4: &Point3, inside: bool)
    requires
        quarter_in_range(*q1),
        quarter_in_range(*q2),
        quarter_in_range(*q3),
        quarter_in_range(*q4),
        forall|i: int| 0 <= i < old(polys)@.len() ==> triangle_in_range(#[trigger] old(polys)@[i]),
    ensures
        final(polys)@ == old(polys)@ + fan(*q1, *q2, *q3, *q4, inside),
        forall|i: int| 0 <= i < final(polys)@.len() ==> triangle_in_range(#[trigger] final(polys)@[i]),
{
    // Put a vertex at the average of the vertices.
    let c = midpoint(q1, q2, q3, q4);
    let v1 = scaled4(q1);
    let v2 = scaled4(q2);
    let v3 = scaled4(q3);
    let v4 = scaled4(q4);
    let ghost before = polys@;
    if inside {
        // The polys are visible from positive infinity.
        polys.push(tri(v2, v1, c));
        polys.push(tri(v3, v2, c));
        polys.push(tri(v4, v3, c));
        polys.push(tri(v1, v4, c));
    } else {
        // The polys are visible from negative infinity.
        polys.push(tri(v1, v2, c));
        polys.push(tri(v2, v3, c));
        polys.push(tri(v3, v4, c));
        polys.push(tri(v4, v1, c));
    }
    assert(polys@ =~= before + fan(*q1, *q2, *q3, *q4, inside));
}

/// The three other voxels around the edge that leaves the low corner of a
/// voxel along an axis.
fn edge_neighbours(b: &Bounds, axis: u8) -> (r: (Bounds, Bounds, Bounds))
    requires
        i32::MIN < b.x < i32::MAX,
        i32::MIN < b.y < i32::MAX,
        i32::MIN < b.z < i32::MAX,
        axis < 3,
    ensures
        r.0 == beside(behind(*b, axis as int), axis as int),
        r.1 == beside(*b, axis as int),
        r.2 == behind(*b, axis as int),
        r.0 == shifted(*b, r.0.x - b.x, r.0.y - b.y, r.0.z - b.z),
        r.1 == shifted(*b, r.1.x - b.x, r.1.y - b.y, r.1.z - b.z),
        r.2 == shifted(*b, r.2.x - b.x, r.2.y - b.y, r.2.z - b.z),
        -1 <= r.0.x - b.x <= 1 && -1 <= r.0.y - b.y <= 1 && -1 <= r.0.z - b.z <= 1,
        -1 <= r.1.x - b.x <= 1 && -1 <= r.1.y - b.y <= 1 && -1 <= r.1.z - b.z <= 1,
        -1 <= r.2.x - b.x <= 1 && -1 <= r.2.y - b.y <= 1 && -1 <= r.2.z - b.z <= 1,
{
    if axis == 0 {
        (shift(b, 0, -1, -1), shift(b, 0, -1, 0), shift(b, 0, 0, -1))
    } else if axis == 1 {
        (shift(b, -1, 0, -1), shift(b, 0, 0, -1), shift(b, -1, 0, 0))
    } else {
        (shift(b, -1, -1, 0), shift(b, -1, 0, 0), shift(b, 0, -1, 0))
    }
}

/// The neighbour that shares the edge leaving the low corner of a voxel
/// along an axis.
fn edge_end(b: &Bounds, axis: u8) -> (e: Bounds)
    requires
        i32::MIN < b.x < i32::MAX,
        i32::MIN < b.y < i32::MAX,
        i32::MIN < b.z < i32::MAX,
        axis < 3,
    ensures
        e == ahead(*b, axis as int),
        e == shifted(*b, e.x - b.x, e.y - b.y, e.z - b.z),
        -1 <= e.x - b.x <= 1 && -1 <= e.y - b.y <= 1 && -1 <= e.z - b.z <= 1,
{
    if axis == 0 {
        shift(b, 1, 0, 0)
    } else if axis == 1 {
        shift(b, 0, 1, 0)
    } else {
        shift(b, 0, 0, 1)
    }
}

/// Read the vertices of the three other voxels around the edge that
/// leaves the low corner of a voxel along an axis, where they all have one.
fn neighbour_vertices(
    voxels: &mut VoxelTree,
    field: &FieldSamples,
    b: &Bounds,
    axis: u8,
    Ghost(origin): Ghost<VoxelTree>,
    Ghost(start): Ghost<VoxelTree>,
) -> (r: Option<(Point3, Point3, Point3)>)
    requires
        old(voxels).wf(),
        field.wf(),
        covers_around(*field, *b),
        MIN_LG_SIZE <= b.lg_size <= MAX_LG_SIZE,
        read_alike(*old(voxels), origin, *field, b.lg_size as int),
        keeps(*old(voxels), start, *field, b.lg_size as int),
        axis < 3,
    ensures
        final(voxels).wf(),
        read_alike(*final(voxels), origin, *field, b.lg_size as int),
        keeps(*final(voxels), start, *field, b.lg_size as int),
        r is Some <==> neighbours_ready(origin, *field, *b, axis as int),
        r matches Some(q) ==> {
            &&& q.0 == vertex_at(origin, *field, beside(behind(*b, axis as int), axis as int))
            &&& q.1 == vertex_at(origin, *field, beside(*b, axis as int))
            &&& q.2 == vertex_at(origin, *field, behind(*b, axis as int))
            &&& quarter_in_range(q.0)
            &&& quarter_in_range(q.1)
            &&& quarter_in_range(q.2)
            &&& filled(
                *final(voxels),
                *old(voxels),
                *field,
                b.lg_size as int,
                set![beside(behind(*b, axis as int), axis as int), beside(*b, axis as int), behind(*b, axis as int)],
            )
        },
{
    let (b12, b1, b2) = edge_neighbours(b, axis);
    let ghost lg = b.lg_size as int;
    let ghost s0 = *voxels;
    proof {
        lemma_covers_step(*field, *b, b1.x - b.x, b1.y - b.y, b1.z - b.z);
        lemma_covers_step(*field, *b, b2.x - b.x, b2.y - b.y, b2.z - b.z);
        lemma_covers_step(*field, *b, b12.x - b.x, b12.y - b.y, b12.z - b.z);
    }
    let q1 = match neighbour_vertex(voxels, field, &b12, Ghost(origin), Ghost(start)) {
        Some(q) => q,
        None => {
            return None;
        },
    };
    let ghost s1 = *voxels;
    let q2 = match neighbour_vertex(voxels, field, &b1, Ghost(origin), Ghost(start)) {
        Some(q) => q,
        None => {
            return None;
        },
    };
    let ghost s2 = *voxels;
    let q4 = match neighbour_vertex(voxels, field, &b2, Ghost(origin), Ghost(start)) {
        Some(q) => q,
        None => {
            return None;
        },
    };
    proof {
        lemma_read_alike_back(s1, s0, origin, *field, lg);
        lemma_read_alike_back(s2, s0, origin, *field, lg);
        lemma_filled_chain(s2, s1, s0, *field, lg, set![b12], set![b1]);
        lemma_filled_chain(*voxels, s2, s0, *field, lg, set![b12].union(set![b1]), set![b2]);
        assert(set![b12].union(set![b1]).union(set![b2]) =~= set![b12, b1, b2]);
    }
    Some((q1, q2, q4))
}

/// Mesh the edge that leaves the low corner of a surface voxel along an
/// axis. Returns whether the edge could be meshed.
fn mesh_edge(
    voxels: &mut VoxelTree,
    field: &FieldSamples,
    b: &Bounds,
    v: &SurfaceVoxel,
    axis: u8,
    polys: &mut Vec<Triangle>,
    Ghost(origin): Ghost<VoxelTree>,
    Ghost(start): Ghost<VoxelTree>,
) -> (ok: bool)
    requires
        old(voxels).wf(),
        field.wf(),
        covers_around(*field, *b),
        MIN_LG_SIZE <= b.lg_size <= MAX_LG_SIZE,
        read_alike(*old(voxels), origin, *field, b.lg_size as int),
        keeps(*old(voxels), start, *field, b.lg_size as int),
        voxel_at(origin, *field, *b) == Voxel::Surface(*v),
        axis < 3,
        forall|i: int| 0 <= i < old(polys)@.len() ==> triangle_in_range(#[trigger] old(polys)@[i]),
    ensures
        final(voxels).wf(),
        read_alike(*final(voxels), origin, *field, b.lg_size as int),
        keeps(*final(voxels), start, *field, b.lg_size as int),
        ok == edge_ready(origin, *field, *b, axis as int),
        ok ==> final(polys)@ == old(polys)@ + edge_triangles(origin, *field, *b, axis as int),
        ok ==> filled(
            *final(voxels),
            *old(voxels),
            *field,
            b.lg_size as int,
            edge_touched(origin, *field, *b, axis as int),
        ),
        forall|i: int| 0 <= i < final(polys)@.len() ==> triangle_in_range(#[trigger] final(polys)@[i]),
{
    let e = edge_end(b, axis);
    let ghost lg = b.lg_size as int;
    let ghost s0 = *voxels;
    proof {
        reveal(edge_triangles);
        reveal(edge_ready);
        reveal(edge_touched);
        lemma_covers_step(*field, *b, e.x - b.x, e.y - b.y, e.z - b.z);
    }
    let neighbour = read_voxel(voxels, field, &e, Ghost(origin), Ghost(start));
    if v.corner_inside_surface == neighbour.corner_inside() {
        // This edge doesn't cross the surface, and doesn't generate polys.
        assert(polys@ + Seq::<Triangle>::empty() == polys@);
        return true;
    }
    let ghost s1 = *voxels;
    let (q1, q2, q4) = match neighbour_vertices(voxels, field, b, axis, Ghost(origin), Ghost(start)) {
        Some(q) => q,
        None => {
            return false;
        },
    };
    let q3 = quarter_vertex(v, b);
    push_fan(polys, &q1, &q2, &q3, &q4, v.corner_inside_surface);
    proof {
        lemma_read_alike_back(s1, s0, origin, *field, lg);
        lemma_filled_chain(
            *voxels,
            s1,
            s0,
            *field,
            lg,
            set![e],
            set![beside(behind(*b, axis as int), axis as int), beside(*b, axis as int), behind(*b, axis as int)],
        );
    }
    true
}

/// Mesh the three edges that leave the low corner of a voxel. Returns
/// whether they could be meshed.
fn mesh_cell(
    voxels: &mut VoxelTree,
    field: &FieldSamples,
    b: &Bounds,
    polys: &mut Vec<Triangle>,
    Ghost(origin): Ghost<VoxelTree>,
    Ghost(start): Ghost<VoxelTree>,
) -> (ok: bool)
    requires
        old(voxels).wf(),
        field.wf(),
        covers_around(*field, *b),
        MIN_LG_SIZE <= b.lg_size <= MAX_LG_SIZE,
        read_alike(*old(voxels), origin, *field, b.lg_size as int),
        keeps(*old(voxels), start, *field, b.lg_size as int),
        forall|i: int| 0 <= i < old(polys)@.len() ==> triangle_in_range(#[trigger] old(polys)@[i]),
    ensures
        final(voxels).wf(),
        read_alike(*final(voxels), origin, *field, b.lg_size as int),
        keeps(*final(voxels), start, *field, b.lg_size as int),
        ok == cell_ready(origin, *field, *b),
        ok ==> final(polys)@ == old(polys)@ + cell_triangles(origin, *field, *b),
        ok ==> filled(*final(voxels), *old(voxels), *field, b.lg_size as int, cell_touched(origin, *field, *b)),
        ok ==> final(voxels).leaf(*b) is Some,
        forall|i: int| 0 <= i < final(polys)@.len() ==> triangle_in_range(#[trigger] final(polys)@[i]),
{
    let ghost before = polys@;
    let ghost lg = b.lg_size as int;
    let ghost s0 = *voxels;
    proof {
        lemma_covers_step(*field, *b, 0, 0, 0);
    }
    match read_voxel(voxels, field, b, Ghost(origin), Ghost(start)) {
        Voxel::Surface(v) => {
            let ghost s1 = *voxels;
            if !mesh_edge(voxels, field, b, &v, 0, polys, Ghost(origin), Ghost(start)) {
                return false;
            }
            let ghost s2 = *voxels;
            if !mesh_edge(voxels, field, b, &v, 1, polys, Ghost(origin), Ghost(start)) {
                return false;
            }
            let ghost s3 = *voxels;
            if !mesh_edge(voxels, field, b, &v, 2, polys, Ghost(origin), Ghost(start)) {
                return false;
            }
            proof {
                lemma_concat3(
                    before,
                    edge_triangles(origin, *field, *b, 0),
                    edge_triangles(origin, *field, *b, 1),
                    edge_triangles(origin, *field, *b, 2),
                );
                let e0 = edge_touched(origin, *field, *b, 0);
                let e1 = edge_touched(origin, *field, *b, 1);
                let e2 = edge_touched(origin, *field, *b, 2);
                lemma_read_alike_back(s1, s0, origin, *field, lg);
                lemma_read_alike_back(s2, s0, origin, *field, lg);
                lemma_read_alike_back(s3, s0, origin, *field, lg);
                lemma_filled_chain(s2, s1, s0, *field, lg, set![*b], e0);
                lemma_filled_chain(s3, s2, s0, *field, lg, set![*b].union(e0), e1);
                lemma_filled_chain(*voxels, s3, s0, *field, lg, set![*b].union(e0).union(e1), e2);
                lemma_filled_at(*voxels, s0, *field, lg, cell_touched(origin, *field, *b), *b);
            }
            true
        },
        Voxel::Volume(_) => {
            proof {
                lemma_volume_cell(origin, *field, *b);
                assert(before + Seq::<Triangle>::empty() =~= before);
            }
            true
        },
    }
}

proof fn lemma_concat3(a: Seq<Triangle>, x: Seq<Triangle>, y: Seq<Triangle>, z: Seq<Triangle>)
    ensures
        ((a + x) + y) + z == a + (x + y + z),
{
    assert(((a + x) + y) + z =~= a + (x + y + z));
}

/// A voxel without a vertex adds nothing to the mesh.
proof fn lemma_volume_cell(voxels: VoxelTree, field: FieldSamples, b: Bounds)
    requires
        voxel_at(voxels, field, b) is Volume,
    ensures
        cell_ready(voxels, field, b),
        cell_triangles(voxels, field, b) == Seq::<Triangle>::empty(),
{
    reveal(edge_triangles);
    reveal(edge_ready);
    assert(cell_triangles(voxels, field, b) =~= Seq::<Triangle>::empty());
}

proof fn lemma_concat(a: Seq<Triangle>, x: Seq<Triangle>, y: Seq<Triangle>)
    ensures
        (a + x) + y == a + (x + y),
        a + Seq::<Triangle>::empty() == a,
{
    assert((a + x) + y =~= a + (x + y));
    assert(a + Seq::<Triangle>::empty() =~= a);
}

/// Mesh one row of a block. Returns whether it could be meshed.
fn mesh_row(
    voxels: &mut VoxelTree,
    field: &FieldSamples,
    position: &BlockPosition,
    lod: LODIndex,
    dx: i32,
    dy: i32,
    polys: &mut Vec<Triangle>,
    Ghost(origin): Ghost<VoxelTree>,
    Ghost(start): Ghost<VoxelTree>,
) -> (ok: bool)
    requires
        old(voxels).wf(),
        field.wf(),
        position.in_range(),
        lod.0 < NUM_LODS,
        covers_block(*field, *position, lod),
        0 <= dx < spec_edge_samples(lod),
        0 <= dy < spec_edge_samples(lod),
        read_alike(*old(voxels), origin, *field, spec_lg_sample_size(lod)),
        keeps(*old(voxels), start, *field, spec_lg_sample_size(lod)),
        forall|i: int| 0 <= i < old(polys)@.len() ==> triangle_in_range(#[trigger] old(polys)@[i]),
    ensures
        final(voxels).wf(),
        read_alike(*final(voxels), origin, *field, spec_lg_sample_size(lod)),
        keeps(*final(voxels), start, *field, spec_lg_sample_size(lod)),
        ok == row_ready(origin, *field, *position, lod, dx as int, dy as int),
        ok ==> final(polys)@ == old(polys)@ + row_triangles(
            origin,
            *field,
            *position,
            lod,
            dx as int,
            dy as int,
            spec_edge_samples(lod),
        ),
        ok ==> filled(
            *final(voxels),
            *old(voxels),
            *field,
            spec_lg_sample_size(lod),
            row_touched(origin, *field, *position, lod, dx as int, dy as int, spec_edge_samples(lod)),
        ),
        ok ==> forall|dz: int|
            0 <= dz < spec_edge_samples(lod) ==> final(voxels).leaf(
                #[trigger] block_cell(*position, lod, dx as int, dy as int, dz),
            ) is Some,
        forall|i: int| 0 <= i < final(polys)@.len() ==> triangle_in_range(#[trigger] final(polys)@[i]),
{
    let n = edge_samples(lod);
    let lg = lg_sample_size(lod);
    let ghost before = polys@;
    let mut dz: i32 = 0;
    proof {
        lemma_concat(before, Seq::empty(), Seq::empty());
        lemma_filled_none(*voxels, *field, spec_lg_sample_size(lod));
    }
    while dz < n
        invariant
            voxels.wf(),
            field.wf(),
            position.in_range(),
            lod.0 < NUM_LODS,
            covers_block(*field, *position, lod),
            n == spec_edge_samples(lod),
            lg == spec_lg_sample_size(lod),
            0 <= dx < n,
            0 <= dy < n,
            0 <= dz <= n,
            read_alike(*voxels, origin, *field, spec_lg_sample_size(lod)),
            read_alike(*old(voxels), origin, *field, spec_lg_sample_size(lod)),
            keeps(*voxels, start, *field, spec_lg_sample_size(lod)),
            filled(
                *voxels,
                *old(voxels),
                *field,
                spec_lg_sample_size(lod),
                row_touched(origin, *field, *position, lod, dx as int, dy as int, dz as int),
            ),
            polys@ == before + row_triangles(origin, *field, *position, lod, dx as int, dy as int, dz as int),
            forall|k: int|
                0 <= k < dz ==> cell_ready(origin, *field, #[trigger] block_cell(*position, lod, dx as int, dy as int, k)),
            forall|k: int|
                0 <= k < dz ==> voxels.leaf(#[trigger] block_cell(*position, lod, dx as int, dy as int, k)) is Some,
            forall|i: int| 0 <= i < polys@.len() ==> triangle_in_range(#[trigger] polys@[i]),
        decreases n - dz,
    {
        let b = Bounds::new(position.x * n + dx, position.y * n + dy, position.z * n + dz, lg);
        let ghost here = *voxels;
        proof {
            assert(b == block_cell(*position, lod, dx as int, dy as int, dz as int));
            lemma_covers_cell(*field, *position, lod, dx as int, dy as int, dz as int);
            lemma_read_alike_same(here, *field, lg as int);
        }
        let ghost row = row_triangles(origin, *field, *position, lod, dx as int, dy as int, dz as int);
        if !mesh_cell(voxels, field, &b, polys, Ghost(origin), Ghost(here)) {
            proof {
                lemma_keeps_chain(*voxels, here, start, *field, lg as int);
            }
            return false;
        }
        proof {
            lemma_keeps_chain(*voxels, here, start, *field, lg as int);
            lemma_read_alike_back(here, *old(voxels), origin, *field, lg as int);
            lemma_filled_chain(
                *voxels,
                here,
                *old(voxels),
                *field,
                lg as int,
                row_touched(origin, *field, *position, lod, dx as int, dy as int, dz as int),
                cell_touched(origin, *field, b),
            );
            lemma_concat(before, row, cell_triangles(origin, *field, b));
            assert forall|k: int| 0 <= k < dz + 1 implies voxels.leaf(
                #[trigger] block_cell(*position, lod, dx as int, dy as int, k),
            ) is Some by {
                if k < dz {
                    lemma_keeps_at(*voxels, here, *field, block_cell(*position, lod, dx as int, dy as int, k));
                }
            }
        }
        dz = dz + 1;
    }
    true
}

/// Mesh one slab of a block. Returns whether it could be meshed.
fn mesh_slab(
    voxels: &mut VoxelTree,
    field: &FieldSamples,
    position: &BlockPosition,
    lod: LODIndex,
    dx: i32,
    polys: &mut Vec<Triangle>,
    Ghost(origin): Ghost<VoxelTree>,
    Ghost(start): Ghost<VoxelTree>,
) -> (ok: bool)
    requires
        old(voxels).wf(),
        field.wf(),
        position.in_range(),
        lod.0 < NUM_LODS,
        covers_block(*field, *position, lod),
        0 <= dx < spec_edge_samples(lod),
        read_alike(*old(voxels), origin, *field, spec_lg_sample_size(lod)),
        keeps(*old(voxels), start, *field, spec_lg_sample_size(lod)),
        forall|i: int| 0 <= i < old(polys)@.len() ==> triangle_in_range(#[trigger] old(polys)@[i]),
    ensures
        final(voxels).wf(),
        read_alike(*final(voxels), origin, *field, spec_lg_sample_size(lod)),
        keeps(*final(voxels), start, *field, spec_lg_sample_size(lod)),
        ok == slab_ready(origin, *field, *position, lod, dx as int),
        ok ==> final(polys)@ == old(polys)@ + slab_triangles(
            origin,
            *field,
            *position,
            lod,
            dx as int,
            spec_edge_samples(lod),
        ),
        ok ==> filled(
            *final(voxels),
            *old(voxels),
            *field,
            spec_lg_sample_size(lod),
            slab_touched(origin, *field, *position, lod, dx as int, spec_edge_samples(lod)),
        ),
        ok ==> slab_stored(*final(voxels), *position, lod, dx as int),
        forall|i: int| 0 <= i < final(polys)@.len() ==> triangle_in_range(#[trigger] final(polys)@[i]),
{
    let n = edge_samples(lod);
    let ghost lg = spec_lg_sample_size(lod);
    let ghost before = polys@;
    let mut dy: i32 = 0;
    proof {
        lemma_concat(before, Seq::empty(), Seq::empty());
        lemma_filled_none(*voxels, *field, lg);
    }
    while dy < n
        invariant
            voxels.wf(),
            field.wf(),
            position.in_range(),
            lod.0 < NUM_LODS,
            covers_block(*field, *position, lod),
            n == spec_edge_samples(lod),
            lg == spec_lg_sample_size(lod),
            0 <= dx < n,
            0 <= dy <= n,
            read_alike(*voxels, origin, *field, lg),
            read_alike(*old(voxels), origin, *field, lg),
            keeps(*voxels, start, *field, lg),
            filled(
                *voxels,
                *old(voxels),
                *field,
                lg,
                slab_touched(origin, *field, *position, lod, dx as int, dy as int),
            ),
            polys@ == before + slab_triangles(origin, *field, *position, lod, dx as int, dy as int),
            forall|k: int| 0 <= k < dy ==> #[trigger] row_ready(origin, *field, *position, lod, dx as int, k),
            forall|k: int, dz: int|
                0 <= k < dy && 0 <= dz < n ==> voxels.leaf(
                    #[trigger] block_cell(*position, lod, dx as int, k, dz),
                ) is Some,
            forall|i: int| 0 <= i < polys@.len() ==> triangle_in_range(#[trigger] polys@[i]),
        decreases n - dy,
    {
        let ghost here = *voxels;
        let ghost slab = slab_triangles(origin, *field, *position, lod, dx as int, dy as int);
        proof {
            lemma_read_alike_same(here, *field, lg);
        }
        if !mesh_row(voxels, field, position, lod, dx, dy, polys, Ghost(origin), Ghost(here)) {
            proof {
                lemma_keeps_chain(*voxels, here, start, *field, lg);
            }
            return false;
        }
        proof {
            lemma_keeps_chain(*voxels, here, start, *field, lg);
            lemma_read_alike_back(here, *old(voxels), origin, *field, lg);
            lemma_filled_chain(
                *voxels,
                here,
                *old(voxels),
                *field,
                lg,
                slab_touched(origin, *field, *position, lod, dx as int, dy as int),
                row_touched(origin, *field, *position, lod, dx as int, dy as int, n as int),
            );
            lemma_concat(
                before,
                slab,
                row_triangles(origin, *field, *position, lod, dx as int, dy as int, n as int),
            );
            assert forall|k: int, dz: int| 0 <= k < dy + 1 && 0 <= dz < n implies voxels.leaf(
                #[trigger] block_cell(*position, lod, dx as int, k, dz),
            ) is Some by {
                if k < dy {
                    lemma_keeps_at(*voxels, here, *field, block_cell(*position, lod, dx as int, k, dz));
                }
            }
        }
        dy = dy + 1;
    }
    true
}

/// Mesh a block. Returns its triangles where it could be meshed.
pub(crate) fn mesh_block(
    voxels: &mut VoxelTree,
    field: &FieldSamples,
    position: &BlockPosition,
    lod: LODIndex,
) -> (polys: Option<Vec<Triangle>>)
    requires
        old(voxels).wf(),
        field.wf(),
        position.in_range(),
        lod.0 < NUM_LODS,
        covers_block(*field, *position, lod),
    ensures
        final(voxels).wf(),
        read_alike(*final(voxels), *old(voxels), *field, spec_lg_sample_size(lod)),
        keeps(*final(voxels), *old(voxels), *field, spec_lg_sample_size(lod)),
        polys is Some <==> mesh_ready(*old(voxels), *field, *position, lod),
        polys matches Some(p) ==> {
            &&& p@ == spec_block_triangles(*old(voxels), *field, *position, lod)
            &&& block_stored(*final(voxels), *position, lod)
            &&& filled(
                *final(voxels),
                *old(voxels),
                *field,
                spec_lg_sample_size(lod),
                spec_block_touched(*old(voxels), *field, *position, lod),
            )
            &&& forall|i: int| 0 <= i < p@.len() ==> triangle_in_range(#[trigger] p@[i])
        },
{
    let n = edge_samples(lod);
    let ghost lg = spec_lg_sample_size(lod);
    let ghost origin = *voxels;
    let mut polys: Vec<Triangle> = Vec::new();
    let mut dx: i32 = 0;
    proof {
        lemma_read_alike_same(origin, *field, lg);
        lemma_filled_none(origin, *field, lg);
    }
    while dx < n
        invariant
            voxels.wf(),
            field.wf(),
            position.in_range(),
            lod.0 < NUM_LODS,
            covers_block(*field, *position, lod),
            n == spec_edge_samples(lod),
            lg == spec_lg_sample_size(lod),
            0 <= dx <= n,
            origin == *old(voxels),
            read_alike(*voxels, origin, *field, lg),
            keeps(*voxels, origin, *field, lg),
            filled(*voxels, origin, *field, lg, slabs_touched(origin, *field, *position, lod, dx as int)),
            polys@ == slabs_triangles(origin, *field, *position, lod, dx as int),
            forall|k: int| 0 <= k < dx ==> #[trigger] slab_ready(origin, *field, *position, lod, k),
            forall|k: int, dy: int, dz: int|
                0 <= k < dx && 0 <= dy < n && 0 <= dz < n ==> voxels.leaf(
                    #[trigger] block_cell(*position, lod, k, dy, dz),
                ) is Some,
            forall|i: int| 0 <= i < polys@.len() ==> triangle_in_range(#[trigger] polys@[i]),
        decreases n - dx,
    {
        let ghost here = *voxels;
        proof {
            lemma_read_alike_same(here, *field, lg);
        }
        if !mesh_slab(voxels, field, position, lod, dx, &mut polys, Ghost(origin), Ghost(here)) {
            proof {
                lemma_keeps_chain(*voxels, here, origin, *field, lg);
            }
            return None;
        }
        proof {
            lemma_keeps_chain(*voxels, here, origin, *field, lg);
            lemma_filled_chain(
                *voxels,
                here,
                origin,
                *field,
                lg,
                slabs_touched(origin, *field, *position, lod, dx as int),
                slab_touched(origin, *field, *position, lod, dx as int, n as int),
            );
            assert forall|k: int, dy: int, dz: int| 0 <= k < dx + 1 && 0 <= dy < n && 0 <= dz < n implies voxels.leaf(
                #[trigger] block_cell(*position, lod, k, dy, dz),
            ) is Some by {
                if k < dx {
                    lemma_keeps_at(*voxels, here, *field, block_cell(*position, lod, k, dy, dz));
                }
            }
        }
        dx = dx + 1;
    }
    Some(polys)
}

/// Read the voxel at a place as meshing would, and leave the tree as it
/// is.
fn peek(voxels: &VoxelTree, field: &FieldSamples, b: &Bounds) -> (v: Voxel)
    requires
        voxels.wf(),
        field.wf(),
        field.covers_voxel(*b),
        MIN_LG_SIZE <= b.lg_size <= MAX_LG_SIZE,
    ensures
        v == voxel_at(*voxels, *field, *b),
{
    match voxels.get(b) {
        Some(v) => v,
        None => generate_voxel(field, b),
    }
}

/// Whether the voxel that meshing reads at a place has a vertex.
fn peek_vertex(voxels: &VoxelTree, field: &FieldSamples, b: &Bounds) -> (has: bool)
    requires
        voxels.wf(),
        field.wf(),
        field.covers_voxel(*b),
        MIN_LG_SIZE <= b.lg_size <= MAX_LG_SIZE,
    ensures
        has == has_vertex(*voxels, *field, *b),
{
    match peek(voxels, field, b) {
        Voxel::Surface(_) => true,
        Voxel::Volume(_) => false,
    }
}

/// Whether the edge that leaves the low corner of a surface voxel along an
/// axis can be meshed.
fn edge_is_ready(voxels: &VoxelTree, field: &FieldSamples, b: &Bounds, v: &SurfaceVoxel, axis: u8) -> (ready: bool)
    requires
        voxels.wf(),
        field.wf(),
        covers_around(*field, *b),
        MIN_LG_SIZE <= b.lg_size <= MAX_LG_SIZE,
        voxel_at(*voxels, *field, *b) == Voxel::Surface(*v),
        axis < 3,
    ensures
        ready == edge_ready(*voxels, *field, *b, axis as int),
{
    let e = edge_end(b, axis);
    let (b12, b1, b2) = edge_neighbours(b, axis);
    proof {
        reveal(edge_ready);
        lemma_covers_step(*field, *b, e.x - b.x, e.y - b.y, e.z - b.z);
        lemma_covers_step(*field, *b, b1.x - b.x, b1.y - b.y, b1.z - b.z);
        lemma_covers_step(*field, *b, b2.x - b.x, b2.y - b.y, b2.z - b.z);
        lemma_covers_step(*field, *b, b12.x - b.x, b12.y - b.y, b12.z - b.z);
    }
    let neighbour = peek(voxels, field, &e);
    if v.corner_inside_surface == neighbour.corner_inside() {
        return true;
    }
    peek_vertex(voxels, field, &b1) && peek_vertex(voxels, field, &b2) && peek_vertex(voxels, field, &b12)
}

/// Whether the three edges that leave the low corner of a voxel can be
/// meshed.
fn cell_is_ready(voxels: &VoxelTree, field: &FieldSamples, b: &Bounds) -> (ready: bool)
    requires
        voxels.wf(),
        field.wf(),
        covers_around(*field, *b),
        MIN_LG_SIZE <= b.lg_size <= MAX_LG_SIZE,
    ensures
        ready == cell_ready(*voxels, *field, *b),
{
    proof {
        lemma_covers_step(*field, *b, 0, 0, 0);
    }
    match peek(voxels, field, b) {
        Voxel::Surface(v) => edge_is_ready(voxels, field, b, &v, 0) && edge_is_ready(voxels, field, b, &v, 1)
            && edge_is_ready(voxels, field, b, &v, 2),
        Voxel::Volume(_) => {
            proof {
                lemma_volume_cell(*voxels, *field, *b);
            }
            true
        },
    }
}

/// Whether every voxel of a row of a block can be meshed.
fn row_is_ready(
    voxels: &VoxelTree,
    field: &FieldSamples,
    position: &BlockPosition,
    lod: LODIndex,
    dx: i32,
    dy: i32,
) -> (ready: bool)
    requires
        voxels.wf(),
        field.wf(),
        position.in_range(),
        lod.0 < NUM_LODS,
        covers_block(*field, *position, lod),
        0 <= dx < spec_edge_samples(lod),
        0 <= dy < spec_edge_samples(lod),
    ensures
        ready == row_ready(*voxels, *field, *position, lod, dx as int, dy as int),
{
    let n = edge_samples(lod);
    let lg = lg_sample_size(lod);
    let mut dz: i32 = 0;
    while dz < n
        invariant
            voxels.wf(),
            field.wf(),
            position.in_range(),
            lod.0 < NUM_LODS,
            covers_block(*field, *position, lod),
            n == spec_edge_samples(lod),
            lg == spec_lg_sample_size(lod),
            0 <= dx < n,
            0 <= dy < n,
            0 <= dz <= n,
            forall|k: int|
                0 <= k < dz ==> cell_ready(*voxels, *field, #[trigger] block_cell(*position, lod, dx as int, dy as int, k)),
        decreases n - dz,
    {
        let b = Bounds::new(position.x * n + dx, position.y * n + dy, position.z * n + dz, lg);
        proof {
            assert(b == block_cell(*position, lod, dx as int, dy as int, dz as int));
            lemma_covers_cell(*field, *position, lod, dx as int, dy as int, dz as int);
        }
        if !cell_is_ready(voxels, field, &b) {
            return false;
        }
        dz = dz + 1;
    }
    true
}

/// Whether every voxel of a slab of a block can be meshed.
fn slab_is_ready(voxels: &VoxelTree, field: &FieldSamples, position: &BlockPosition, lod: LODIndex, dx: i32) -> (ready:
    bool)
    requires
        voxels.wf(),
        field.wf(),
        position.in_range(),
        lod.0 < NUM_LODS,
        covers_block(*field, *position, lod),
        0 <= dx < spec_edge_samples(lod),
    ensures
        ready == slab_ready(*voxels, *field, *position, lod, dx as int),
{
    let n = edge_samples(lod);
    let mut dy: i32 = 0;
    while dy < n
        invariant
            voxels.wf(),
            field.wf(),
            position.in_range(),
            lod.0 < NUM_LODS,
            covers_block(*field, *position, lod),
            n == spec_edge_samples(lod),
            0 <= dx < n,
            0 <= dy <= n,
            forall|k: int| 0 <= k < dy ==> #[trigger] row_ready(*voxels, *field, *position, lod, dx as int, k),
        decreases n - dy,
    {
        if !row_is_ready(voxels, field, position, lod, dx, dy) {
            return false;
        }
        dy = dy + 1;
    }
    true
}

/// Whether a block can be meshed: around every edge of its voxels that the
/// surface crosses, all four voxels have a vertex. The tree is read, and
/// stays as it is.
pub fn is_mesh_ready(voxels: &VoxelTree, field: &FieldSamples, position: &BlockPosition, lod: LODIndex) -> (ready:
    bool)
    requires
        voxels.wf(),
        field.wf(),
        position.in_range(),
        lod.0 < NUM_LODS,
        covers_block(*field, *position, lod),
    ensures
        ready == mesh_ready(*voxels, *field, *position, lod),
{
    let n = edge_samples(lod);
    let mut dx: i32 = 0;
    while dx < n
        invariant
            voxels.wf(),
            field.wf(),
            position.in_range(),
            lod.0 < NUM_LODS,
            covers_block(*field, *position, lod),
            n == spec_edge_samples(lod),
            0 <= dx <= n,
            forall|k: int| 0 <= k < dx ==> #[trigger] slab_ready(*voxels, *field, *position, lod, k),
        decreases n - dx,
    {
        if !slab_is_ready(voxels, field, position, lod, dx) {
            return false;
        }
        dx = dx + 1;
    }
    true
}

} // verus!

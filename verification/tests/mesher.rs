use noise::{Fbm, MultiFractal, NoiseFn, Perlin};
use terrain_streaming::block_position::BlockPosition;
use terrain_streaming::entity::EntityId;
use terrain_streaming::field::{FieldSamples, SampleRegion};
use terrain_streaming::generate::{generate_block, make_bounds};
use terrain_streaming::id_allocator::IdAllocator;
use terrain_streaming::lod::LODIndex;
use terrain_streaming::mesher::is_mesh_ready;
use terrain_streaming::terrain_block::{edge_samples, lg_sample_size, tri, Point3, TerrainBlock, Triangle};
use terrain_streaming::voxel::{Bounds, Voxel};
use terrain_streaming::voxel_tree::{TreeBody, VoxelTree};

fn sample_density(region: SampleRegion, density: &dyn Fn(f64, f64, f64) -> f64) -> FieldSamples {
    let unit = (2.0f64).powi(region.lg_unit);
    let mut samples = Vec::new();
    let w = region.width as i64;
    for x in 0..w {
        for y in 0..w {
            for z in 0..w {
                let wx = (region.min_x + x) as f64 * unit;
                let wy = (region.min_y + y) as f64 * unit;
                let wz = (region.min_z + z) as f64 * unit;
                samples.push(density(wx, wy, wz) >= 0.0);
            }
        }
    }
    FieldSamples::new(region, samples).unwrap()
}

fn mesh(density: &dyn Fn(f64, f64, f64) -> f64, position: BlockPosition, lod: u32) -> TerrainBlock {
    let field = sample_density(SampleRegion::for_block(&position, LODIndex(lod)), density);
    let mut ids = IdAllocator::new();
    let mut voxels = VoxelTree::new();
    assert!(is_mesh_ready(&voxels, &field, &position, LODIndex(lod)));
    generate_block(&mut ids, &field, &mut voxels, &position, LODIndex(lod))
}

fn edges(t: &Triangle) -> [(Point3, Point3); 3] {
    [(t.v1, t.v2), (t.v2, t.v3), (t.v3, t.v1)]
}

fn key(p: &Point3) -> (i64, i64, i64) {
    (p.x, p.y, p.z)
}

#[test]
fn sizes_of_the_levels_of_detail() {
    assert_eq!((edge_samples(LODIndex(0)), lg_sample_size(LODIndex(0))), (8, 0));
    assert_eq!((edge_samples(LODIndex(1)), lg_sample_size(LODIndex(1))), (4, 1));
    assert_eq!((edge_samples(LODIndex(2)), lg_sample_size(LODIndex(2))), (2, 2));
    assert_eq!((edge_samples(LODIndex(3)), lg_sample_size(LODIndex(3))), (1, 3));
    let r = SampleRegion::for_block(&BlockPosition::new(1, -1, 0), LODIndex(1));
    assert_eq!((r.lg_unit, r.min_x, r.min_y, r.min_z, r.width), (-1, 12, -20, -4, 25));
}

#[test]
fn bounds_of_a_triangle_are_padded_below() {
    let t = tri(
        Point3 { x: 5, y: 10, z: -3 },
        Point3 { x: -5, y: 10, z: 9 },
        Point3 { x: 0, y: 10, z: 0 },
    );
    let b = make_bounds(&t);
    assert_eq!((b.min.x, b.min.y, b.min.z), (-5, 10 - 1024, -3));
    assert_eq!((b.max.x, b.max.y, b.max.z), (5, 10, 9));
}

#[test]
fn seeded_terrain_crosses_the_origin_block() {
    let terrain = Fbm::<Perlin>::new(0)
        .set_octaves(2)
        .set_frequency(1.0 / 64.0)
        .set_persistence(1.0 / 16.0)
        .set_lacunarity(8.0);
    let density = move |x: f64, y: f64, z: f64| terrain.get([x, z]) * 64.0 - y;
    let block = mesh(&density, BlockPosition::new(0, 0, 0), 0);
    assert!(block.vertex_coordinates.len() >= 1);
    assert_eq!(block.ids.len(), block.vertex_coordinates.len());
    assert_eq!(block.bounds.len(), block.vertex_coordinates.len());
    for (i, (id, b)) in block.bounds.iter().enumerate() {
        assert_eq!(*id, block.ids[i]);
        assert_eq!(*id, EntityId(i as u32));
        assert!(b.min.x <= b.max.x);
        assert!(b.min.y <= b.max.y);
        assert!(b.min.y + 1024 <= b.max.y);
        assert!(b.min.z <= b.max.z);
        assert_eq!(*b, make_bounds(&block.vertex_coordinates[i]));
    }
}

#[test]
fn generation_is_deterministic() {
    let density = |x: f64, y: f64, z: f64| (x * 0.3).sin() * 3.0 + (z * 0.2).cos() * 2.0 + 4.0 - y;
    for lod in 0..4 {
        let a = mesh(&density, BlockPosition::new(0, 0, 0), lod);
        let b = mesh(&density, BlockPosition::new(0, 0, 0), lod);
        assert!(!a.vertex_coordinates.is_empty());
        assert_eq!(a.vertex_coordinates, b.vertex_coordinates);
        assert_eq!(a.ids, b.ids);
        assert_eq!(a.bounds, b.bounds);
    }
}

#[test]
fn flat_ground_is_meshed_as_a_flat_sheet() {
    // The ground is everything at or below y = 0.5, so the bottom corners of the
    // voxels at y = 0 are inside and their top corners are outside.
    let density = |_: f64, y: f64, _: f64| 0.5 - y;
    let block = mesh(&density, BlockPosition::new(0, 0, 0), 0);
    // One crossed edge per column of voxels, four triangles per crossed edge.
    assert_eq!(block.vertex_coordinates.len(), 8 * 8 * 4);
    for t in block.vertex_coordinates.iter() {
        // Corners weigh 1 at height 0, inner points weigh 2 at height 64:
        // (4 * 0 + 2 * 4 * 64) / 12 = 42 of 256, times four fixed units.
        assert_eq!(t.v1.y, 168);
        assert_eq!(t.v2.y, 168);
        assert_eq!(t.v3.y, 168);
        // The sheet faces up: the normal of every triangle points to +y.
        let (ax, az) = (t.v2.x - t.v1.x, t.v2.z - t.v1.z);
        let (bx, bz) = (t.v3.x - t.v1.x, t.v3.z - t.v1.z);
        assert!(az * bx - ax * bz > 0);
    }
    // The vertex of every voxel is at (127, 42, 127) of 256, so the fan around
    // the crossed edge at the origin has its midpoint just off the origin.
    let first = block.vertex_coordinates[0];
    assert_eq!(key(&first.v1), (508, 168, -516));
    assert_eq!(key(&first.v2), (-516, 168, -516));
    assert_eq!(key(&first.v3), (-4, 168, -4));
    let second = block.vertex_coordinates[1];
    assert_eq!(key(&second.v1), (508, 168, 508));
    assert_eq!(key(&second.v2), (508, 168, -516));
    assert_eq!(key(&second.v3), (-4, 168, -4));
}

#[test]
fn a_solid_cube_is_meshed_without_holes() {
    // A cube from 2.5 to 5.5 along every axis, well inside the block.
    let density = |x: f64, y: f64, z: f64| {
        let d = (x - 4.0).abs().max((y - 4.0).abs()).max((z - 4.0).abs());
        1.5 - d
    };
    let block = mesh(&density, BlockPosition::new(0, 0, 0), 0);
    assert!(!block.vertex_coordinates.is_empty());
    let mut directed = std::collections::HashMap::new();
    for t in block.vertex_coordinates.iter() {
        for (a, b) in edges(t).iter() {
            *directed.entry((key(a), key(b))).or_insert(0) += 1;
        }
    }
    for ((a, b), count) in directed.iter() {
        assert_eq!(*count, 1);
        assert_eq!(directed.get(&(*b, *a)), Some(&1));
    }
}

#[test]
fn coarser_levels_of_detail_use_larger_voxels() {
    let density = |_: f64, y: f64, _: f64| 1.0 - y;
    let block = mesh(&density, BlockPosition::new(0, 0, 0), 3);
    // One voxel of width eight: one crossed edge, four triangles.
    assert_eq!(block.vertex_coordinates.len(), 4);
    // Only the bottom corners are inside, so the vertex lies on the bottom.
    let t = block.vertex_coordinates[0];
    assert_eq!(key(&t.v1), (127 * 32, 0, -129 * 32));
    assert_eq!(key(&t.v3), (-32, 0, -32));
    let fine = mesh(&density, BlockPosition::new(1, 0, -1), 1);
    assert_eq!(fine.vertex_coordinates.len(), 4 * 4 * 4);
    for t in fine.vertex_coordinates.iter() {
        assert!(t.v3.x >= 8 * 1024 - 4096 && t.v3.x <= 16 * 1024);
        assert!(t.v3.z >= -8 * 1024 - 4096 && t.v3.z <= 0);
    }
}

#[test]
fn meshing_keeps_the_voxels_and_numbers_the_triangles_on() {
    let density = |_: f64, y: f64, _: f64| 0.5 - y;
    let position = BlockPosition::new(0, 0, 0);
    let field = sample_density(SampleRegion::for_block(&position, LODIndex(2)), &density);
    let mut ids = IdAllocator::new();
    ids.allocate();
    ids.allocate();
    let mut voxels = VoxelTree::new();
    let block = generate_block(&mut ids, &field, &mut voxels, &position, LODIndex(2));
    assert_eq!(block.vertex_coordinates.len(), 16);
    assert_eq!(block.ids[0], EntityId(2));
    assert_eq!(block.ids[15], EntityId(17));
    assert_eq!(ids.next(), 18);
    for x in 0..2 {
        for y in 0..2 {
            for z in 0..2 {
                assert!(voxels.get(&Bounds::new(x, y, z, 2)).is_some());
            }
        }
    }
    assert!(matches!(voxels.get(&Bounds::new(0, 0, 0, 2)), Some(Voxel::Surface(_))));
    assert_eq!(voxels.get(&Bounds::new(0, 1, 0, 2)), Some(Voxel::Volume(false)));
    assert_eq!(voxels.get(&Bounds::new(0, -1, 0, 2)), None);
}

#[test]
fn a_missing_neighbour_vertex_is_found_before_meshing() {
    let density = |_: f64, y: f64, _: f64| 0.5 - y;
    let position = BlockPosition::new(0, 0, 0);
    let field = sample_density(SampleRegion::for_block(&position, LODIndex(3)), &density);
    let mut voxels = VoxelTree::new();
    assert!(is_mesh_ready(&voxels, &field, &position, LODIndex(3)));
    // The check reads the tree and leaves it as it is.
    assert_eq!(voxels.get(&Bounds::new(0, 0, 0, 3)), None);
    *voxels.get_mut_or_create(&Bounds::new(-1, 0, 0, 3)) = TreeBody::Leaf(Voxel::Volume(true));
    assert!(!is_mesh_ready(&voxels, &field, &position, LODIndex(3)));
    // A voxel without a vertex is in nobody's way where no edge is crossed.
    let mut voxels = VoxelTree::new();
    *voxels.get_mut_or_create(&Bounds::new(-1, 1, 0, 3)) = TreeBody::Leaf(Voxel::Volume(false));
    assert!(is_mesh_ready(&voxels, &field, &position, LODIndex(3)));
}

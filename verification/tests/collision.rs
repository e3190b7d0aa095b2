use terrain_streaming::block_position::BlockPosition;
use terrain_streaming::collision::{
    block_of, from_world_position, hits_terrain, is_in_world, overlaps, translatable, translate_misc,
};
use terrain_streaming::entity::EntityId;
use terrain_streaming::field::{FieldSamples, SampleRegion};
use terrain_streaming::id_allocator::IdAllocator;
use terrain_streaming::lod::{LODIndex, OwnerId, LOD};
use terrain_streaming::physics::Physics;
use terrain_streaming::server::doubled_distance_squared;
use terrain_streaming::terrain_block::{Aabb3, Point3};
use terrain_streaming::terrain_game_loader::TerrainGameLoader;
use terrain_streaming::update_gaia::update_gaia;

fn bounds(min: (i64, i64, i64), max: (i64, i64, i64)) -> Aabb3 {
    Aabb3 { min: Point3 { x: min.0, y: min.1, z: min.2 }, max: Point3 { x: max.0, y: max.1, z: max.2 } }
}

fn flat_field(position: &BlockPosition, lod: LODIndex) -> FieldSamples {
    let region = SampleRegion::for_block(position, lod);
    let unit = (2.0f64).powi(region.lg_unit);
    let w = region.width as i64;
    let mut samples = Vec::new();
    for _x in 0..w {
        for y in 0..w {
            for _z in 0..w {
                samples.push((region.min_y + y) as f64 * unit <= 0.5);
            }
        }
    }
    FieldSamples::new(region, samples).unwrap()
}

#[test]
fn boxes_overlap_only_with_a_common_inside() {
    let a = bounds((0, 0, 0), (10, 10, 10));
    assert!(overlaps(&a, &bounds((9, 9, 9), (20, 20, 20))));
    assert!(!overlaps(&a, &bounds((10, 0, 0), (20, 10, 10))));
    assert!(!overlaps(&a, &bounds((0, 0, -5), (10, 10, 0))));
    assert!(overlaps(&a, &bounds((2, 2, 2), (3, 3, 3))));
    assert!(overlaps(&bounds((2, 2, 2), (3, 3, 3)), &a));
}

#[test]
fn blocks_hold_their_low_sides() {
    assert_eq!(block_of(0), 0);
    assert_eq!(block_of(8191), 0);
    assert_eq!(block_of(8192), 1);
    assert_eq!(block_of(-1), -1);
    assert_eq!(block_of(-8192), -1);
    assert_eq!(block_of(-8193), -2);
    let p = from_world_position(&Point3 { x: 512, y: 64 * 1024, z: -512 });
    assert_eq!((p.x, p.y, p.z), (0, 8, -1));
    assert!(is_in_world(&bounds((-(1 << 40), 0, 0), (0, 0, (1 << 40) - 1))));
    assert!(!is_in_world(&bounds((0, 0, 0), (1 << 40, 0, 0))));
}

#[test]
fn distances_between_boxes_are_exact() {
    let a = bounds((0, 0, 0), (1024, 2048, 1024));
    let b = bounds((3072, 0, 0), (4096, 2048, 1024));
    // The middles are three units apart: (2 * 3 * 1024) squared.
    assert_eq!(doubled_distance_squared(&a, &b), 6144 * 6144);
    assert_eq!(doubled_distance_squared(&b, &a), 6144 * 6144);
    assert_eq!(doubled_distance_squared(&a, &a), 0);
    let c = bounds((-1024, -2048, 1024), (0, 0, 2048));
    assert_eq!(doubled_distance_squared(&a, &c), 2048 * 2048 + 4096 * 4096 + 2048 * 2048);
}

#[test]
fn entities_are_stopped_by_the_loaded_terrain() {
    let mut loader = TerrainGameLoader::new();
    let mut ids = IdAllocator::new();
    let mut physics = Physics::new();
    let p = BlockPosition::new(0, 0, 0);

    // Nothing is loaded: nothing is in the way.
    let falling = bounds((1024, 3 * 1024, 1024), (2048, 5 * 1024, 2048));
    assert!(!hits_terrain(&loader, &falling));

    // Flat ground, with its surface a little above the zero plane.
    let request = loader.load(&mut ids, &mut physics, &p, LOD::LodIndex(LODIndex(0)), OwnerId(1)).unwrap();
    update_gaia(&mut loader, &mut ids, &mut physics, &flat_field(&p, LODIndex(0)), request);
    assert!(!hits_terrain(&loader, &falling));
    assert!(hits_terrain(&loader, &bounds((1024, 0, 1024), (2048, 2048, 2048))));
    assert!(!hits_terrain(&loader, &bounds((1024, 200, 1024), (2048, 2048, 2048))));

    let mob = EntityId(ids.allocate());
    physics.insert_misc(mob, falling);
    assert!(translatable(&physics, mob, 0, -1024, 0));
    assert!(!translatable(&physics, EntityId(99_999), 0, 0, 0));
    assert!(!translatable(&physics, mob, 1 << 41, 0, 0));
    assert!(!translate_misc(&mut physics, &loader, mob, 0, -1024, 0));
    assert_eq!(physics.get_bounds(mob), Some(bounds((1024, 2048, 1024), (2048, 4096, 2048))));
    assert!(translate_misc(&mut physics, &loader, mob, 0, -2048, 0));
    assert_eq!(physics.get_bounds(mob), Some(bounds((1024, 2048, 1024), (2048, 4096, 2048))));

    // A block that is held by a placeholder is solid throughout.
    let q = BlockPosition::new(1, 1, 0);
    assert_eq!(loader.load(&mut ids, &mut physics, &q, LOD::Placeholder, OwnerId(2)), None);
    assert!(hits_terrain(&loader, &bounds((8192 + 10, 8192 + 10, 10), (8192 + 20, 8192 + 20, 20))));
    assert!(translate_misc(&mut physics, &loader, mob, 8192, 8192, 0));
    loader.unload(&mut physics, &q, OwnerId(2));
    assert!(!translate_misc(&mut physics, &loader, mob, 8192, 8192, 0));
}

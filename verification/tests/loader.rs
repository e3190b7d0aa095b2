use terrain_streaming::block_position::BlockPosition;
use terrain_streaming::communicate::{ClientId, ServerToClient};
use terrain_streaming::entity::EntityId;
use terrain_streaming::field::{FieldSamples, SampleRegion};
use terrain_streaming::id_allocator::IdAllocator;
use terrain_streaming::in_progress_terrain::{block_bounds, InProgressTerrain};
use terrain_streaming::lod::{LODIndex, OwnerId, LOD};
use terrain_streaming::physics::Physics;
use terrain_streaming::surroundings_loader::LODChange;
use terrain_streaming::terrain::{Terrain, TerrainType, AMPLITUDE};
use terrain_streaming::terrain_block::{Aabb3, Point3};
use terrain_streaming::terrain_game_loader::TerrainGameLoader;
use terrain_streaming::update_gaia::{update_gaia, LoadReason, ServerToGaia};
use terrain_streaming::update_world::{load_placeholders, load_surroundings, lod_for_distance};

fn flat_field(position: &BlockPosition, lod: LODIndex) -> FieldSamples {
    let region = SampleRegion::for_block(position, lod);
    let unit = (2.0f64).powi(region.lg_unit);
    let w = region.width as i64;
    let mut samples = Vec::new();
    for _x in 0..w {
        for y in 0..w {
            for _z in 0..w {
                samples.push((region.min_y + y) as f64 * unit <= 0.5);
            }
        }
    }
    FieldSamples::new(region, samples).unwrap()
}

fn lod(i: u32) -> LOD {
    LOD::LodIndex(LODIndex(i))
}

struct World {
    loader: TerrainGameLoader,
    ids: IdAllocator,
    physics: Physics,
}

fn world() -> World {
    World { loader: TerrainGameLoader::new(), ids: IdAllocator::new(), physics: Physics::new() }
}

fn serve(w: &mut World, request: ServerToGaia) -> Option<(ClientId, ServerToClient)> {
    let ServerToGaia::Load(position, lod, _) = request;
    let field = flat_field(&position, lod);
    update_gaia(&mut w.loader, &mut w.ids, &mut w.physics, &field, request)
}

#[test]
fn terrain_names() {
    assert_eq!(AMPLITUDE, 64);
    assert_ne!(TerrainType::Grass, TerrainType::Stone);
    let t = Terrain::new(3, 4);
    assert_eq!(t.terrain_seed(), 3);
    assert_eq!(t.treemap().seed(), 4);
}

#[test]
fn physics_files_boxes_under_entities() {
    let mut physics = Physics::new();
    let b = Aabb3 { min: Point3 { x: 0, y: 0, z: 0 }, max: Point3 { x: 1, y: 2, z: 3 } };
    physics.insert_terrain(EntityId(1), b);
    physics.insert_misc(EntityId(2), b);
    assert_eq!(physics.get_terrain_bounds(EntityId(1)), Some(b));
    assert_eq!(physics.get_terrain_bounds(EntityId(2)), None);
    assert_eq!(physics.get_bounds(EntityId(2)), Some(b));
    assert_eq!(physics.get_bounds(EntityId(1)), None);
    assert_eq!(physics.terrain_len(), 1);
    physics.remove_terrain(EntityId(1));
    physics.remove_misc(EntityId(2));
    assert_eq!(physics.terrain_len(), 0);
    assert_eq!(physics.get_bounds(EntityId(2)), None);
}

#[test]
fn placeholders_are_solid_blocks() {
    let mut ids = IdAllocator::new();
    let mut physics = Physics::new();
    let mut in_progress = InProgressTerrain::new();
    let p = BlockPosition::new(1, -1, 0);
    assert!(in_progress.insert(&mut ids, &mut physics, &p));
    assert!(!in_progress.insert(&mut ids, &mut physics, &p));
    assert_eq!(ids.next(), 1);
    assert_eq!(in_progress.get(&p), Some(EntityId(0)));
    let b = block_bounds(&p);
    assert_eq!((b.min.x, b.min.y, b.min.z), (8192, -8192, 0));
    assert_eq!((b.max.x, b.max.y, b.max.z), (16384, 0, 8192));
    assert_eq!(physics.get_bounds(EntityId(0)), Some(b));
    assert!(in_progress.remove(&mut physics, &p));
    assert!(!in_progress.remove(&mut physics, &p));
    assert_eq!(physics.get_bounds(EntityId(0)), None);
    assert_eq!(in_progress.get(&p), None);
}

#[test]
fn terrain_generates_a_mesh_once_and_keeps_it() {
    let mut terrain = Terrain::new(0, 0);
    let mut ids = IdAllocator::new();
    let p = BlockPosition::new(0, 0, 0);
    assert!(terrain.get(&p, LODIndex(1)).is_none());
    let field = flat_field(&p, LODIndex(1));
    assert!(terrain.can_load(&field, &p, LODIndex(1)));
    let n = terrain.load(&mut ids, &field, &p, LODIndex(1)).ids.len();
    assert_eq!(n, 64);
    assert_eq!(ids.next(), 64);
    let again = terrain.load(&mut ids, &field, &p, LODIndex(1)).ids.clone();
    assert_eq!(again[0], EntityId(0));
    assert_eq!(ids.next(), 64);
    assert!(terrain.get(&p, LODIndex(0)).is_none());
    assert!(terrain.get(&p, LODIndex(2)).is_none());
    assert!(terrain.get(&BlockPosition::new(0, 0, 1), LODIndex(1)).is_none());
    assert_eq!(terrain.get(&p, LODIndex(1)).unwrap().ids.len(), 64);
}

#[test]
fn load_asks_for_a_mesh_that_is_not_kept_and_installs_it_when_it_arrives() {
    let mut w = world();
    let p = BlockPosition::new(0, 0, 0);
    let owner = OwnerId(1);
    let request = w.loader.load(&mut w.ids, &mut w.physics, &p, lod(2), owner);
    assert_eq!(request, Some(ServerToGaia::Load(p, LODIndex(2), LoadReason::Local(owner))));
    assert_eq!(w.physics.terrain_len(), 0);
    assert_eq!(w.loader.lod_map.get_loaded(&p), None);

    assert!(serve(&mut w, request.unwrap()).is_none());
    assert_eq!(w.loader.lod_map.get_loaded(&p), Some(lod(2)));
    assert_eq!(w.physics.terrain_len(), 16);
    let block = w.loader.terrain.get(&p, LODIndex(2)).unwrap();
    for (id, b) in block.bounds.iter() {
        assert_eq!(w.physics.get_terrain_bounds(*id), Some(*b));
    }
}

#[test]
fn loading_twice_does_nothing_the_second_time() {
    let mut w = world();
    let p = BlockPosition::new(0, 0, 0);
    let request = w.loader.load(&mut w.ids, &mut w.physics, &p, lod(3), OwnerId(1));
    assert!(request.is_some());
    assert_eq!(w.loader.load(&mut w.ids, &mut w.physics, &p, lod(3), OwnerId(1)), None);
    serve(&mut w, request.unwrap());
    assert_eq!(w.physics.terrain_len(), 4);
    assert_eq!(w.loader.load(&mut w.ids, &mut w.physics, &p, lod(3), OwnerId(1)), None);
    assert_eq!(w.physics.terrain_len(), 4);
    assert_eq!(w.ids.next(), 4);
}

#[test]
fn unloading_after_loading_restores_the_colliders() {
    let mut w = world();
    let p = BlockPosition::new(0, 0, 0);
    let q = BlockPosition::new(1, 0, 0);
    let request = w.loader.load(&mut w.ids, &mut w.physics, &q, lod(3), OwnerId(2));
    serve(&mut w, request.unwrap());
    let before: Vec<Option<Aabb3>> = (0..40).map(|i| w.physics.get_terrain_bounds(EntityId(i))).collect();
    assert_eq!(w.physics.terrain_len(), 4);

    let request = w.loader.load(&mut w.ids, &mut w.physics, &p, lod(2), OwnerId(1));
    serve(&mut w, request.unwrap());
    assert_eq!(w.physics.terrain_len(), 20);
    w.loader.unload(&mut w.physics, &p, OwnerId(1));
    assert_eq!(w.physics.terrain_len(), 4);
    let after: Vec<Option<Aabb3>> = (0..40).map(|i| w.physics.get_terrain_bounds(EntityId(i))).collect();
    assert_eq!(before, after);
    assert_eq!(w.loader.lod_map.get_loaded(&p), None);

    // Unloading again is a no-op.
    w.loader.unload(&mut w.physics, &p, OwnerId(1));
    assert_eq!(w.physics.terrain_len(), 4);

    // The mesh is kept, so loading again installs it at once.
    assert_eq!(w.loader.load(&mut w.ids, &mut w.physics, &p, lod(2), OwnerId(1)), None);
    assert_eq!(w.physics.terrain_len(), 20);
    assert_eq!(w.loader.lod_map.get_loaded(&p), Some(lod(2)));
}

#[test]
fn a_placeholder_is_installed_at_once_and_gives_way_to_a_mesh() {
    let mut w = world();
    let p = BlockPosition::new(0, 0, 0);
    assert_eq!(w.loader.load(&mut w.ids, &mut w.physics, &p, LOD::Placeholder, OwnerId(1)), None);
    assert_eq!(w.loader.lod_map.get_loaded(&p), Some(LOD::Placeholder));
    let placeholder = w.loader.in_progress_terrain.get(&p).unwrap();
    assert_eq!(placeholder, EntityId(0));
    assert_eq!(w.physics.get_bounds(placeholder), Some(block_bounds(&p)));

    let request = w.loader.load(&mut w.ids, &mut w.physics, &p, lod(3), OwnerId(2));
    serve(&mut w, request.unwrap());
    assert_eq!(w.loader.lod_map.get_loaded(&p), Some(lod(3)));
    assert_eq!(w.loader.in_progress_terrain.get(&p), None);
    assert_eq!(w.physics.get_bounds(placeholder), None);
    assert_eq!(w.physics.terrain_len(), 4);

    w.loader.unload(&mut w.physics, &p, OwnerId(2));
    assert_eq!(w.physics.terrain_len(), 0);
    assert_eq!(w.loader.lod_map.get_loaded(&p), None);
    assert_eq!(w.loader.lod_map.get_desired(&p), Some(LOD::Placeholder));
}

#[test]
fn a_lesser_request_changes_nothing() {
    let mut w = world();
    let p = BlockPosition::new(0, 0, 0);
    let request = w.loader.load(&mut w.ids, &mut w.physics, &p, lod(3), OwnerId(1));
    serve(&mut w, request.unwrap());
    assert_eq!(w.loader.load(&mut w.ids, &mut w.physics, &p, lod(1), OwnerId(2)), None);
    assert_eq!(w.loader.load(&mut w.ids, &mut w.physics, &p, LOD::Placeholder, OwnerId(3)), None);
    assert_eq!(w.loader.lod_map.get_loaded(&p), Some(lod(3)));
    assert_eq!(w.physics.terrain_len(), 4);
    w.loader.unload(&mut w.physics, &p, OwnerId(2));
    assert_eq!(w.physics.terrain_len(), 4);
}

#[test]
fn a_mesh_that_arrives_too_late_is_dropped() {
    let mut w = world();
    let p = BlockPosition::new(0, 0, 0);
    let request = w.loader.load(&mut w.ids, &mut w.physics, &p, lod(3), OwnerId(1)).unwrap();
    w.loader.unload(&mut w.physics, &p, OwnerId(1));
    assert!(serve(&mut w, request).is_none());
    assert_eq!(w.physics.terrain_len(), 0);
    assert_eq!(w.loader.lod_map.get_loaded(&p), None);
    // The mesh was generated all the same, and is kept.
    assert_eq!(w.loader.terrain.get(&p, LODIndex(3)).unwrap().ids.len(), 4);
}

#[test]
fn a_mesh_for_a_client_is_sent_and_not_installed() {
    let mut w = world();
    let p = BlockPosition::new(0, 0, 0);
    let sent = serve(&mut w, ServerToGaia::Load(p, LODIndex(0), LoadReason::ForClient(ClientId(7))));
    match sent {
        Some((to, ServerToClient::TerrainBlockSend(position, lod, block))) => {
            assert_eq!(to, ClientId(7));
            assert_eq!(position, p);
            assert_eq!(lod, LODIndex(0));
            assert_eq!(block.ids.len(), block.vertex_coordinates.len());
            assert_eq!(block.ids.len(), 256);
            assert_eq!(block.ids, w.loader.terrain.get(&p, LODIndex(0)).unwrap().ids);
        },
        _ => panic!("the block is sent to the client"),
    }
    assert_eq!(w.physics.terrain_len(), 0);
}

#[test]
fn distances_map_to_levels_of_detail() {
    let thresholds = vec![2, 16, 32];
    assert_eq!(lod_for_distance(&thresholds, 0), LODIndex(0));
    assert_eq!(lod_for_distance(&thresholds, 2), LODIndex(0));
    assert_eq!(lod_for_distance(&thresholds, 3), LODIndex(1));
    assert_eq!(lod_for_distance(&thresholds, 17), LODIndex(2));
    assert_eq!(lod_for_distance(&thresholds, 40), LODIndex(3));
    assert_eq!(lod_for_distance(&vec![1, 2, 3, 4, 5], 100), LODIndex(3));
    assert_eq!(lod_for_distance(&Vec::new(), 100), LODIndex(0));
}

#[test]
fn surroundings_messages_reach_the_loader() {
    let mut w = world();
    let p = BlockPosition::new(2, 0, 0);
    let thresholds = vec![2, 16, 32];
    let request = load_surroundings(
        OwnerId(1),
        &thresholds,
        &mut w.loader,
        &mut w.ids,
        &mut w.physics,
        LODChange::Load(p, 20),
    );
    assert_eq!(request, Some(ServerToGaia::Load(p, LODIndex(2), LoadReason::Local(OwnerId(1)))));
    assert_eq!(w.loader.lod_map.get(&p, OwnerId(1)).0, Some(lod(2)));
    let request = load_placeholders(OwnerId(2), &mut w.loader, &mut w.ids, &mut w.physics, LODChange::Load(p, 1));
    assert_eq!(request, None);
    assert_eq!(w.loader.lod_map.get(&p, OwnerId(2)).0, Some(LOD::Placeholder));
    assert_eq!(w.loader.in_progress_terrain.get(&p), None);
    let request = load_surroundings(
        OwnerId(1),
        &thresholds,
        &mut w.loader,
        &mut w.ids,
        &mut w.physics,
        LODChange::Unload(p),
    );
    assert_eq!(request, None);
    assert_eq!(w.loader.lod_map.get_desired(&p), Some(LOD::Placeholder));
    load_placeholders(OwnerId(2), &mut w.loader, &mut w.ids, &mut w.physics, LODChange::Unload(p));
    assert_eq!(w.loader.lod_map.get_desired(&p), None);
}

#[test]
fn an_owner_that_lowers_its_request_below_another_is_served_what_it_asks_for() {
    let mut w = world();
    let p = BlockPosition::new(0, 0, 0);
    let (a, b) = (OwnerId(1), OwnerId(2));
    let request = w.loader.load(&mut w.ids, &mut w.physics, &p, lod(3), a);
    serve(&mut w, request.unwrap());
    assert_eq!(w.loader.load(&mut w.ids, &mut w.physics, &p, lod(2), b), None);
    assert_eq!(w.physics.terrain_len(), 4);

    // The greatest demand falls from 3 to 2, and the owner asks for 1.
    let request = w.loader.load(&mut w.ids, &mut w.physics, &p, lod(1), a);
    assert_eq!(request, Some(ServerToGaia::Load(p, LODIndex(1), LoadReason::Local(a))));
    assert_eq!(w.loader.lod_map.get_desired(&p), Some(lod(2)));
    assert_eq!(w.loader.lod_map.get_loaded(&p), Some(lod(3)));
    assert_eq!(w.physics.terrain_len(), 4);

    // The mesh is generated and kept, but another owner demands more: it is stale.
    assert!(serve(&mut w, request.unwrap()).is_none());
    assert!(w.loader.terrain.get(&p, LODIndex(1)).is_some());
    assert_eq!(w.loader.lod_map.get_loaded(&p), Some(lod(3)));
    assert_eq!(w.physics.terrain_len(), 4);
}

#[test]
fn a_placeholder_request_never_asks_the_generator() {
    let mut w = world();
    let p = BlockPosition::new(0, 0, 0);
    let (a, b) = (OwnerId(1), OwnerId(2));
    let request = w.loader.load(&mut w.ids, &mut w.physics, &p, lod(3), a);
    serve(&mut w, request.unwrap());
    w.loader.load(&mut w.ids, &mut w.physics, &p, lod(2), b);
    let ids_before = w.ids.next();

    // The greatest demand falls from 3 to 2, and the owner asks for a placeholder.
    let request = load_placeholders(a, &mut w.loader, &mut w.ids, &mut w.physics, LODChange::Load(p, 1));
    assert_eq!(request, None);
    assert_eq!(w.loader.lod_map.get(&p, a).0, Some(LOD::Placeholder));
    assert_eq!(w.loader.lod_map.get_desired(&p), Some(lod(2)));
    // Another owner demands a mesh, so no placeholder is put up.
    assert_eq!(w.loader.in_progress_terrain.get(&p), None);
    assert_eq!(w.loader.lod_map.get_loaded(&p), Some(lod(3)));
    assert_eq!(w.ids.next(), ids_before);

    // Once the placeholder is the greatest demand, it is put up.
    w.loader.unload(&mut w.physics, &p, b);
    w.loader.unload(&mut w.physics, &p, a);
    assert_eq!(load_placeholders(a, &mut w.loader, &mut w.ids, &mut w.physics, LODChange::Load(p, 1)), None);
    assert!(w.loader.in_progress_terrain.get(&p).is_some());
    assert_eq!(w.loader.lod_map.get_loaded(&p), Some(LOD::Placeholder));
}

use rand::{IsaacRng, Rng, SeedableRng};
use terrain_streaming::block_position::BlockPosition;
use terrain_streaming::client_recv_thread::{apply_client_update, can_apply, stops_ray, ServerAction};
use terrain_streaming::communicate::{ClientId, ClientToServer, ServerToClient};
use terrain_streaming::entity::EntityId;
use terrain_streaming::field::{FieldSamples, SampleRegion};
use terrain_streaming::id_allocator::IdAllocator;
use terrain_streaming::init_mobs::init_mobs;
use terrain_streaming::lod::{LODIndex, OwnerId};
use terrain_streaming::physics::Physics;
use terrain_streaming::server::{Behavior, Server};
use terrain_streaming::terrain_block::Point3;
use terrain_streaming::tree_placer::{word_places_tree, TreePlacer};
use terrain_streaming::update_gaia::{update_gaia, LoadReason, ServerToGaia};
use terrain_streaming::voxel::{Fracu8, SurfaceVoxel, Vertex, Voxel};

fn flat_field(position: &BlockPosition, lod: LODIndex) -> FieldSamples {
    let region = SampleRegion::for_block(position, lod);
    let unit = (2.0f64).powi(region.lg_unit);
    let w = region.width as i64;
    let mut samples = Vec::new();
    for _x in 0..w {
        for y in 0..w {
            for _z in 0..w {
                samples.push((region.min_y + y) as f64 * unit <= 0.5);
            }
        }
    }
    FieldSamples::new(region, samples).unwrap()
}

#[test]
fn a_client_joins_adds_a_player_and_is_sent_a_block() {
    let mut server = Server::new();

    let init = ClientToServer::Init(String::from("ipc:///tmp/client.ipc"));
    assert!(can_apply(&server, &init));
    let actions = apply_client_update(&mut server, init);
    assert_eq!(actions.len(), 2);
    let client = match &actions[0] {
        ServerAction::Connect(c, url) => {
            assert_eq!(url, "ipc:///tmp/client.ipc");
            *c
        },
        _ => panic!("the client is connected first"),
    };
    match &actions[1] {
        ServerAction::Send(to, ServerToClient::LeaseId(c)) => {
            assert_eq!(*to, client);
            assert_eq!(*c, client);
        },
        _ => panic!("the client is leased its id"),
    }
    assert_eq!(server.clients, vec![client]);

    let actions = apply_client_update(&mut server, ClientToServer::AddPlayer(client));
    assert_eq!(actions.len(), 1);
    let player = match &actions[0] {
        ServerAction::Send(to, ServerToClient::PlayerAdded(id, pos)) => {
            assert_eq!(*to, client);
            assert_eq!(pos.y, 64 * 1024);
            assert_eq!((pos.x, pos.z), (512, 4 * 1024 + 512));
            *id
        },
        _ => panic!("the client is told of its player"),
    };
    assert_eq!(server.players.len(), 1);
    assert_eq!(server.players[0].entity_id, player);
    assert!(server.physics.get_bounds(player).is_some());

    let p = BlockPosition::new(0, 0, 0);
    let actions = apply_client_update(&mut server, ClientToServer::RequestBlock(client, p, LODIndex(0)));
    assert_eq!(actions.len(), 1);
    let request = match &actions[0] {
        ServerAction::Gaia(request) => *request,
        _ => panic!("the request goes to the generator"),
    };
    assert_eq!(request, ServerToGaia::Load(p, LODIndex(0), LoadReason::ForClient(client)));
    let field = flat_field(&p, LODIndex(0));
    let sent = update_gaia(
        &mut server.terrain_game_loader,
        &mut server.id_allocator,
        &mut server.physics,
        &field,
        request,
    );
    match sent {
        Some((to, ServerToClient::TerrainBlockSend(position, lod, block))) => {
            assert_eq!(to, client);
            assert_eq!(position, p);
            assert_eq!(lod, LODIndex(0));
            assert_eq!(block.ids.len(), block.vertex_coordinates.len());
        },
        _ => panic!("the block is sent to the client"),
    }
}

#[test]
fn unknown_clients_and_players_are_not_accepted() {
    let mut server = Server::new();
    assert!(!can_apply(&server, &ClientToServer::Ping(ClientId(0))));
    assert!(!can_apply(&server, &ClientToServer::AddPlayer(ClientId(0))));
    assert!(!can_apply(&server, &ClientToServer::StartJump(EntityId(0))));
    assert!(can_apply(&server, &ClientToServer::RequestBlock(ClientId(9), BlockPosition::new(0, 0, 0), LODIndex(1))));
    apply_client_update(&mut server, ClientToServer::Init(String::new()));
    assert!(can_apply(&server, &ClientToServer::Ping(ClientId(0))));
    assert!(!can_apply(&server, &ClientToServer::Ping(ClientId(1))));
    let actions = apply_client_update(&mut server, ClientToServer::Ping(ClientId(0)));
    assert!(matches!(actions[..], [ServerAction::Send(ClientId(0), ServerToClient::Ping)]));
}

#[test]
fn players_jump_walk_and_look() {
    let mut server = Server::new();
    apply_client_update(&mut server, ClientToServer::Init(String::new()));
    apply_client_update(&mut server, ClientToServer::AddPlayer(ClientId(0)));
    apply_client_update(&mut server, ClientToServer::AddPlayer(ClientId(0)));
    let player = server.players[1].entity_id;
    assert_eq!(player, EntityId(1));
    assert_eq!(server.players[1].surroundings_owner, OwnerId(2));
    assert_eq!(server.players[1].solid_owner, OwnerId(3));

    let actions = apply_client_update(&mut server, ClientToServer::StartJump(player));
    assert!(matches!(actions[..], [ServerAction::Jump(EntityId(1), true)]));
    assert!(server.players[1].is_jumping);
    assert!(!server.players[0].is_jumping);
    assert!(apply_client_update(&mut server, ClientToServer::StartJump(player)).is_empty());
    let actions = apply_client_update(&mut server, ClientToServer::StopJump(player));
    assert!(matches!(actions[..], [ServerAction::Jump(EntityId(1), false)]));
    assert!(!server.players[1].is_jumping);
    assert!(apply_client_update(&mut server, ClientToServer::StopJump(player)).is_empty());

    let v = Point3 { x: 1, y: -2, z: 3 };
    let actions = apply_client_update(&mut server, ClientToServer::Walk(player, v));
    assert!(matches!(actions[..], [ServerAction::Walk(EntityId(1), w)] if w == v));
    let actions = apply_client_update(&mut server, ClientToServer::RotatePlayer(player, v));
    assert!(matches!(actions[..], [ServerAction::Rotate(EntityId(1), w)] if w == v));
    let actions = apply_client_update(&mut server, ClientToServer::RemoveVoxel(player));
    assert!(matches!(actions[..], [ServerAction::CastRay(EntityId(1))]));
}

#[test]
fn rays_pass_through_empty_space_only() {
    assert!(!stops_ray(&Voxel::Volume(false)));
    assert!(stops_ray(&Voxel::Volume(true)));
    let v = Vertex { x: Fracu8::of(0), y: Fracu8::of(0), z: Fracu8::of(0) };
    assert!(stops_ray(&Voxel::Surface(SurfaceVoxel { inner_vertex: v, corner_inside_surface: false })));
}

#[test]
fn the_world_starts_with_one_mob() {
    let mut physics = Physics::new();
    let mut ids = IdAllocator::new();
    let mut owners = IdAllocator::new();
    ids.allocate();
    let mobs = init_mobs(&mut physics, &mut ids, &mut owners);
    assert_eq!(mobs.len(), 1);
    assert_eq!(mobs[0].entity_id, EntityId(1));
    assert_eq!(mobs[0].owner_id, OwnerId(0));
    assert_eq!(mobs[0].behavior, Behavior::Walk);
    assert_eq!((mobs[0].position.x, mobs[0].position.y, mobs[0].position.z), (512, 64 * 1024, -512));
    let b = physics.get_bounds(EntityId(1)).unwrap();
    assert_eq!((b.min.x, b.min.y, b.min.z), (0, 64 * 1024, -1024));
    assert_eq!((b.max.x, b.max.y, b.max.z), (1024, 66 * 1024, 0));
    assert_eq!(ids.next(), 2);
    assert_eq!(owners.next(), 1);
}

#[test]
fn mobs_change_their_minds_by_distance() {
    // The square of twice a distance of d units is 4 * d * d * 1024 * 1024.
    let sq = |d: u128| 4 * d * d * 1024 * 1024;
    assert_eq!(Behavior::Walk.next(sq(3)), Behavior::Walk);
    assert_eq!(Behavior::Walk.next(sq(2) - 1), Behavior::WaitForDistance);
    assert_eq!(Behavior::WaitForDistance.next(sq(8)), Behavior::WaitForDistance);
    assert_eq!(Behavior::WaitForDistance.next(sq(8) + 1), Behavior::FollowPlayer);
    assert_eq!(Behavior::FollowPlayer.next(sq(2)), Behavior::FollowPlayer);
    assert_eq!(Behavior::FollowPlayer.next(sq(1)), Behavior::WaitToReset);
    assert_eq!(Behavior::WaitToReset.next(sq(1)), Behavior::WaitToReset);
    assert_eq!(Behavior::WaitToReset.next(sq(2)), Behavior::Walk);
}

#[test]
fn trees_are_placed_by_the_seeded_generator() {
    let placer = TreePlacer::new(7);
    let mut placed = 0;
    for x in 0..60u32 {
        for z in 0..60u32 {
            let mut rng: IsaacRng = SeedableRng::from_seed(&[0u32, 7, x, z][..]);
            let word = rng.next_u32();
            let expected = word > 0xFF7FFFFF;
            assert_eq!(placer.should_place_tree(x, z), expected);
            assert_eq!(word_places_tree(word), expected);
            if expected {
                placed += 1;
            }
        }
    }
    assert!(placed < 60);
    assert!(word_places_tree(0xFF800000));
    assert!(!word_places_tree(0xFF7FFFFF));
    // The placer's own seed takes part.
    let other = TreePlacer::new(8);
    let differs = (0..4000u32).any(|x| placer.should_place_tree(x, 0) != other.should_place_tree(x, 0));
    assert!(differs);
}

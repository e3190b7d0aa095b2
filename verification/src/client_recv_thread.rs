//! What the server does with a message from a client.

use crate::block_position::BlockPosition;
use crate::communicate::{ClientId, ClientToServer, ServerToClient};
use crate::entity::EntityId;
use crate::field::FieldSamples;
use crate::id_allocator::IdAllocator;
use crate::lod::{LODIndex, OwnerId};
use crate::physics::Physics;
use crate::server::{
    foot, new_player_bounds, spec_foot, spec_lod_thresholds, spec_new_player_bounds, Player, Server, LOAD_DISTANCE,
};
use crate::terrain_block::Point3;
use crate::terrain_game_loader::TerrainGameLoader;
use crate::update_gaia::{serves, LoadReason, ServerToGaia};
use crate::voxel::Voxel;
use vstd::prelude::*;

verus! {

/// What is left to do once a message from a client has been taken in:
/// what the state of the server does not hold.
pub enum ServerAction {
    /// Open a way to send to the client at a return address.
    Connect(ClientId, String),
    /// Send a message to a client.
    Send(ClientId, ServerToClient),
    /// Hand a request on to the terrain generator.
    Gaia(ServerToGaia),
    /// A player has started (true) or stopped (false) to jump.
    Jump(EntityId, bool),
    /// Add a vector to a player's acceleration.
    Walk(EntityId, Point3),
    /// Rotate a player.
    Rotate(EntityId, Point3),
    /// Find the voxel that a player looks at, and remove it.
    CastRay(EntityId),
}

/// Whether a ray that is cast to find a voxel to remove stops at a voxel:
/// it passes through empty space only.
pub fn stops_ray(voxel: &Voxel) -> (stops: bool)
    ensures
        stops == (*voxel != Voxel::Volume(false)),
{
    match voxel {
        Voxel::Volume(false) => false,
        _ => true,
    }
}

/// Whether the server can take a message in: the client or player that the
/// message names is known, and the identifiers that the message calls for
/// are left.
pub open spec fn accepts(server: Server, update: ClientToServer) -> bool {
    match update {
        ClientToServer::Init(_) => server.client_allocator.remaining() >= 1,
        ClientToServer::Ping(client_id) => server.has_client(client_id),
        ClientToServer::AddPlayer(client_id) => {
            &&& server.has_client(client_id)
            &&& server.id_allocator.remaining() >= 1
            &&& server.owner_allocator.remaining() >= 2
        },
        ClientToServer::StartJump(player_id) => server.has_player(player_id),
        ClientToServer::StopJump(player_id) => server.has_player(player_id),
        ClientToServer::Walk(player_id, _) => server.has_player(player_id),
        ClientToServer::RotatePlayer(player_id, _) => server.has_player(player_id),
        ClientToServer::RequestBlock(_, _, _) => true,
        ClientToServer::RemoveVoxel(player_id) => server.has_player(player_id),
    }
}

/// Whether the server can take a message in.
pub fn can_apply(server: &Server, update: &ClientToServer) -> (ok: bool)
    ensures
        ok == accepts(*server, *update),
{
    match update {
        ClientToServer::Init(_) => server.client_allocator.has_remaining(1),
        ClientToServer::Ping(client_id) => server.knows_client(*client_id),
        ClientToServer::AddPlayer(client_id) => server.knows_client(*client_id) && server.id_allocator.has_remaining(1)
            && server.owner_allocator.has_remaining(2),
        ClientToServer::StartJump(player_id) => server.find_player(*player_id).is_some(),
        ClientToServer::StopJump(player_id) => server.find_player(*player_id).is_some(),
        ClientToServer::Walk(player_id, _) => server.find_player(*player_id).is_some(),
        ClientToServer::RotatePlayer(player_id, _) => server.find_player(*player_id).is_some(),
        ClientToServer::RequestBlock(_, _, _) => true,
        ClientToServer::RemoveVoxel(player_id) => server.find_player(*player_id).is_some(),
    }
}

/// Whether two servers differ in nothing but whether one player jumps.
pub open spec fn same_but_jump(before: Server, after: Server, index: int, jumping: bool) -> bool {
    &&& after.players@.len() == before.players@.len()
    &&& forall|i: int| 0 <= i < before.players@.len() && i != index ==> after.players@[i] == before.players@[i]
    &&& after.players@[index].is_jumping == jumping
    &&& after.players@[index].entity_id == before.players@[index].entity_id
    &&& after.players@[index].position == before.players@[index].position
    &&& after.players@[index].surroundings_owner == before.players@[index].surroundings_owner
    &&& after.players@[index].solid_owner == before.players@[index].solid_owner
    &&& after.players@[index].surroundings_loader == before.players@[index].surroundings_loader
    &&& after.players@[index].solid_boundary == before.players@[index].solid_boundary
    &&& after.mobs == before.mobs
    &&& after.clients == before.clients
    &&& after.id_allocator == before.id_allocator
    &&& after.owner_allocator == before.owner_allocator
    &&& after.client_allocator == before.client_allocator
    &&& after.physics == before.physics
    &&& after.terrain_game_loader == before.terrain_game_loader
}

fn set_jumping(server: &mut Server, index: usize, jumping: bool)
    requires
        old(server).wf(),
        index < old(server).players@.len(),
    ensures
        final(server).wf(),
        same_but_jump(*old(server), *final(server), index as int, jumping),
{
    server.players[index].is_jumping = jumping;
    assert forall|i: int| 0 <= i < server.players@.len() implies (#[trigger] server.players@[i]).wf() by {
        if i != index {
            assert(server.players@[i] == old(server).players@[i]);
        } else {
            assert(old(server).players@[i].wf());
        }
    }
}

/// What taking a message from a client in does: the state of the server
/// changes as the message asks, and what is left to do is listed in the
/// order in which it is to be done.
pub open spec fn applies(before: Server, after: Server, update: ClientToServer, actions: Seq<ServerAction>) -> bool {
    &&& after.wf()
    &&& before.consistent() ==> after.consistent()
    &&& match update {
            ClientToServer::Init(client_url) => {
                let client_id = ClientId(before.client_allocator.spec_next() as u32);
                &&& actions =~= seq![
                    ServerAction::Connect(client_id, client_url),
                    ServerAction::Send(client_id, ServerToClient::LeaseId(client_id)),
                ]
                &&& after.clients@ =~= before.clients@.push(client_id)
                &&& after.client_allocator.spec_next() == before.client_allocator.spec_next() + 1
                &&& after.players == before.players
                &&& after.mobs == before.mobs
                &&& after.id_allocator == before.id_allocator
                &&& after.owner_allocator == before.owner_allocator
                &&& after.physics == before.physics
                &&& after.terrain_game_loader == before.terrain_game_loader
            },
            ClientToServer::AddPlayer(client_id) => {
                let id = EntityId(before.id_allocator.spec_next() as u32);
                &&& actions =~= seq![
                    ServerAction::Send(client_id, ServerToClient::PlayerAdded(id, spec_foot(spec_new_player_bounds()))),
                ]
                &&& after.players@.len() == before.players@.len() + 1
                &&& after.players@.drop_last() =~= before.players@
                &&& after.players@.last().entity_id == id
                &&& after.players@.last().position == spec_foot(spec_new_player_bounds())
                &&& !after.players@.last().is_jumping
                &&& after.players@.last().surroundings_owner == OwnerId(
                    before.owner_allocator.spec_next() as u32,
                )
                &&& after.players@.last().solid_owner == OwnerId(
                    (before.owner_allocator.spec_next() + 1) as u32,
                )
                &&& after.players@.last().surroundings_loader.spec_last_position() is None
                &&& after.players@.last().surroundings_loader.spec_max_load_distance() == LOAD_DISTANCE
                &&& after.players@.last().surroundings_loader.spec_lod_thresholds() == spec_lod_thresholds()
                &&& after.players@.last().surroundings_loader.recheck() == Seq::<BlockPosition>::empty()
                &&& after.players@.last().solid_boundary.spec_last_position() is None
                &&& after.players@.last().solid_boundary.spec_max_load_distance() == 1
                &&& after.players@.last().solid_boundary.spec_lod_thresholds() == Seq::<i32>::empty()
                &&& after.players@.last().solid_boundary.recheck() == Seq::<BlockPosition>::empty()
                &&& after.physics.misc() == before.physics.misc().insert(id, spec_new_player_bounds())
                &&& after.physics.terrain() == before.physics.terrain()
                &&& after.id_allocator.spec_next() == before.id_allocator.spec_next() + 1
                &&& after.owner_allocator.spec_next() == before.owner_allocator.spec_next() + 2
                &&& after.mobs == before.mobs
                &&& after.clients == before.clients
                &&& after.client_allocator == before.client_allocator
                &&& after.terrain_game_loader == before.terrain_game_loader
            },
            ClientToServer::StartJump(player_id) => {
                let index = Server::player_index(before.players@, player_id);
                &&& same_but_jump(before, after, index, true)
                &&& actions =~= (if before.players@[index].is_jumping {
                    Seq::<ServerAction>::empty()
                } else {
                    seq![ServerAction::Jump(player_id, true)]
                })
            },
            ClientToServer::StopJump(player_id) => {
                let index = Server::player_index(before.players@, player_id);
                &&& same_but_jump(before, after, index, false)
                &&& actions =~= (if before.players@[index].is_jumping {
                    seq![ServerAction::Jump(player_id, false)]
                } else {
                    Seq::<ServerAction>::empty()
                })
            },
            ClientToServer::Ping(client_id) => {
                &&& after == before
                &&& actions =~= seq![ServerAction::Send(client_id, ServerToClient::Ping)]
            },
            ClientToServer::Walk(player_id, v) => {
                &&& after == before
                &&& actions =~= seq![ServerAction::Walk(player_id, v)]
            },
            ClientToServer::RotatePlayer(player_id, v) => {
                &&& after == before
                &&& actions =~= seq![ServerAction::Rotate(player_id, v)]
            },
            ClientToServer::RequestBlock(client_id, position, lod) => {
                &&& after == before
                &&& actions =~= seq![
                    ServerAction::Gaia(ServerToGaia::Load(position, lod, LoadReason::ForClient(client_id))),
                ]
            },
            ClientToServer::RemoveVoxel(player_id) => {
                &&& after == before
                &&& actions =~= seq![ServerAction::CastRay(player_id)]
            },
        }
}

/// Take a message from a client in. The state of the server changes as
/// the message asks, and what is left to do is returned, in the order in
/// which it is to be done.
pub fn apply_client_update(server: &mut Server, update: ClientToServer) -> (actions: Vec<ServerAction>)
    requires
        old(server).wf(),
        accepts(*old(server), update),
    ensures
        applies(*old(server), *final(server), update, actions@),
{
    let mut actions: Vec<ServerAction> = Vec::new();
    match update {
        ClientToServer::Init(client_url) => {
            let client_id = ClientId(server.client_allocator.allocate());
            actions.push(ServerAction::Connect(client_id, client_url));
            actions.push(ServerAction::Send(client_id, ServerToClient::LeaseId(client_id)));
            server.clients.push(client_id);
        },
        ClientToServer::Ping(client_id) => {
            actions.push(ServerAction::Send(client_id, ServerToClient::Ping));
        },
        ClientToServer::AddPlayer(client_id) => {
            proof {
                server.id_allocator.lemma_next_in_range();
                if server.consistent() {
                    crate::invariants::lemma_sound_misc_added(
                        |p: BlockPosition, l: crate::lod::LODIndex| server.terrain_game_loader.terrain.cached(p, l),
                        |p: BlockPosition| server.terrain_game_loader.lod_map.loaded(p),
                        |p: BlockPosition| server.terrain_game_loader.in_progress_terrain.placeholder(p),
                        server.physics.terrain(),
                        server.physics.misc(),
                        server.id_allocator.spec_next(),
                        spec_new_player_bounds(),
                    );
                }
            }
            let id = EntityId(server.id_allocator.allocate());
            let mut player = Player::new(id, &mut server.owner_allocator);
            let bounds = new_player_bounds();
            server.physics.insert_misc(player.entity_id, bounds);
            player.position = foot(&bounds);
            let pos = player.position;
            server.players.push(player);
            actions.push(ServerAction::Send(client_id, ServerToClient::PlayerAdded(id, pos)));
            proof {
                assert(server.players@.drop_last() =~= old(server).players@);
                assert forall|i: int| 0 <= i < server.players@.len() implies (#[trigger] server.players@[i]).wf() by {
                    if i < old(server).players@.len() {
                        assert(server.players@[i] == old(server).players@[i]);
                    }
                }
            }
        },
        ClientToServer::StartJump(player_id) => {
            match server.find_player(player_id) {
                Some(index) => {
                    if !server.players[index].is_jumping {
                        actions.push(ServerAction::Jump(player_id, true));
                    }
                    set_jumping(server, index, true);
                },
                None => {},
            }
        },
        ClientToServer::StopJump(player_id) => {
            match server.find_player(player_id) {
                Some(index) => {
                    if server.players[index].is_jumping {
                        actions.push(ServerAction::Jump(player_id, false));
                    }
                    set_jumping(server, index, false);
                },
                None => {},
            }
        },
        ClientToServer::Walk(player_id, v) => {
            actions.push(ServerAction::Walk(player_id, v));
        },
        ClientToServer::RotatePlayer(player_id, v) => {
            actions.push(ServerAction::Rotate(player_id, v));
        },
        ClientToServer::RequestBlock(client_id, position, lod) => {
            actions.push(ServerAction::Gaia(ServerToGaia::Load(position, lod, LoadReason::ForClient(client_id))));
        },
        ClientToServer::RemoveVoxel(player_id) => {
            actions.push(ServerAction::CastRay(player_id));
        },
    }
    actions
}

/// A client that makes itself known is leased an id and nobody else is
/// told; it is known from then on, so that it can ask for a player. It is
/// then told of its player, who stands at the height of the greatest
/// amplitude of the terrain. When it asks for a block, the request goes to
/// the generator, and serving the request sends the client that block: a
/// mesh with one entity for every triangle. All this holds as long as the
/// allocators have identifiers left.
pub proof fn lemma_client_flow(
    start: Server,
    known: Server,
    playing: Server,
    asked: Server,
    served: TerrainGameLoader,
    physics_served: Physics,
    ids_served: IdAllocator,
    field: FieldSamples,
    url: String,
    position: BlockPosition,
    lod: LODIndex,
    connected: Seq<ServerAction>,
    added: Seq<ServerAction>,
    requested: Seq<ServerAction>,
    send: Option<(ClientId, ServerToClient)>,
)
    requires
        start.wf(),
        start.consistent(),
        start.client_allocator.remaining() >= 1,
        start.id_allocator.remaining() >= 1,
        start.owner_allocator.remaining() >= 2,
        applies(start, known, ClientToServer::Init(url), connected),
        applies(
            known,
            playing,
            ClientToServer::AddPlayer(ClientId(start.client_allocator.spec_next() as u32)),
            added,
        ),
        applies(
            playing,
            asked,
            ClientToServer::RequestBlock(ClientId(start.client_allocator.spec_next() as u32), position, lod),
            requested,
        ),
        serves(
            asked.terrain_game_loader,
            asked.physics,
            asked.id_allocator,
            served,
            physics_served,
            ids_served,
            field,
            ServerToGaia::Load(
                position,
                lod,
                LoadReason::ForClient(ClientId(start.client_allocator.spec_next() as u32)),
            ),
            send,
        ),
    ensures
        ({
            let client = ClientId(start.client_allocator.spec_next() as u32);
            let player = EntityId(start.id_allocator.spec_next() as u32);
            &&& connected =~= seq![
                ServerAction::Connect(client, url),
                ServerAction::Send(client, ServerToClient::LeaseId(client)),
            ]
            &&& accepts(known, ClientToServer::AddPlayer(client))
            &&& added =~= seq![
                ServerAction::Send(client, ServerToClient::PlayerAdded(player, spec_foot(spec_new_player_bounds()))),
            ]
            &&& spec_foot(spec_new_player_bounds()).y == crate::terrain::AMPLITUDE * crate::terrain_block::FIXED_ONE
            &&& playing.has_player(player)
            &&& requested =~= seq![
                ServerAction::Gaia(ServerToGaia::Load(position, lod, LoadReason::ForClient(client))),
            ]
            &&& send matches Some((to, message)) && to == client && (message matches ServerToClient::TerrainBlockSend(
                p,
                l,
                block,
            ) && p == position && l == lod && block@.ids.len() == block@.vertex_coordinates.len()
                && block@.bounds.len() == block@.vertex_coordinates.len())
        }),
{
    let client = ClientId(start.client_allocator.spec_next() as u32);
    assert(known.clients@[known.clients@.len() - 1] == client);
    assert(known.has_client(client));
    assert(playing.players@.len() > 0);
    assert(asked.consistent());
    let cache = |p: BlockPosition, l: LODIndex| asked.terrain_game_loader.terrain.cached(p, l);
    match cache(position, lod) {
        Some(kept) => {
            assert(kept.wf());
        },
        None => {},
    }
}

} // verus!

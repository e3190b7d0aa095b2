//! The state of the server that the handling of client messages and the
//! per-tick update of the world read and change.

use crate::block_position::BlockPosition;
use crate::collision::{box_in_world, in_world};
use crate::communicate::ClientId;
use crate::entity::EntityId;
use crate::id_allocator::IdAllocator;
use crate::lod::OwnerId;
use crate::physics::Physics;
use crate::surroundings_loader::SurroundingsLoader;
use crate::terrain::AMPLITUDE;
use crate::terrain_block::{Aabb3, Point3, FIXED_ONE};
use crate::terrain_game_loader::{consistent, lemma_empty_consistent, TerrainGameLoader};
use vstd::prelude::*;

verus! {

/// How far from a player blocks are loaded, in blocks.
pub const LOAD_DISTANCE: i32 = 40;

/// The distances from a player, in blocks, up to which blocks are loaded
/// at the levels of detail 0, 1 and 2. Blocks farther away are loaded at
/// level of detail 3.
pub open spec fn spec_lod_thresholds() -> Seq<i32> {
    seq![2i32, 16i32, 32i32]
}

/// The distances from a player up to which blocks are loaded at the levels
/// of detail 0, 1 and 2.
pub fn lod_thresholds() -> (thresholds: Vec<i32>)
    ensures
        thresholds@ == spec_lod_thresholds(),
{
    let mut thresholds: Vec<i32> = Vec::new();
    thresholds.push(2);
    thresholds.push(16);
    thresholds.push(32);
    assert(thresholds@ =~= spec_lod_thresholds());
    thresholds
}

/// The box of a player that has just been added: one unit wide and deep
/// and two units tall, standing on the height of the greatest amplitude
/// of the terrain.
pub open spec fn spec_new_player_bounds() -> Aabb3 {
    Aabb3 {
        min: Point3 { x: 0, y: (AMPLITUDE * FIXED_ONE) as i64, z: (4 * FIXED_ONE) as i64 },
        max: Point3 { x: FIXED_ONE, y: ((AMPLITUDE + 2) * FIXED_ONE) as i64, z: (5 * FIXED_ONE) as i64 },
    }
}

/// The position of an entity with a box: the middle of the bottom of the
/// box.
pub open spec fn spec_foot(bounds: Aabb3) -> Point3 {
    Point3 { x: (bounds.min.x + (bounds.max.x - bounds.min.x) / 2) as i64, y: bounds.min.y, z: (bounds.min.z + (
        bounds.max.z - bounds.min.z) / 2) as i64 }
}

/// The box of a player that has just been added.
pub fn new_player_bounds() -> (bounds: Aabb3)
    ensures
        bounds == spec_new_player_bounds(),
{
    assert(AMPLITUDE == 64 && FIXED_ONE == 1024);
    Aabb3 {
        min: Point3 { x: 0, y: 64 * 1024, z: 4 * 1024 },
        max: Point3 { x: 1024, y: 66 * 1024, z: 5 * 1024 },
    }
}

/// The position of an entity with a box.
pub fn foot(bounds: &Aabb3) -> (p: Point3)
    requires
        bounds.min.x <= bounds.max.x,
        bounds.min.z <= bounds.max.z,
        bounds.max.x - bounds.min.x <= i64::MAX,
        bounds.max.z - bounds.min.z <= i64::MAX,
    ensures
        p == spec_foot(*bounds),
{
    Point3 {
        x: bounds.min.x + (bounds.max.x - bounds.min.x) / 2,
        y: bounds.min.y,
        z: bounds.min.z + (bounds.max.z - bounds.min.z) / 2,
    }
}

/// A player: an entity that a client steers, and around which terrain is
/// loaded.
pub struct Player {
    pub entity_id: EntityId,
    pub position: Point3,
    pub is_jumping: bool,
    /// The owner under which the player asks for meshes.
    pub surroundings_owner: OwnerId,
    /// The owner under which the player asks for placeholders.
    pub solid_owner: OwnerId,
    /// Keeps the player's surroundings meshed.
    pub surroundings_loader: SurroundingsLoader,
    /// Keeps the blocks next to the player solid.
    pub solid_boundary: SurroundingsLoader,
}

impl Player {
    /// The player's two surroundings loaders are well formed.
    pub open spec fn wf(self) -> bool {
        &&& self.surroundings_loader.wf()
        &&& self.solid_boundary.wf()
    }

    /// A player that stands still at the origin. The player's two owners
    /// are the next two that the allocator hands out.
    pub fn new(entity_id: EntityId, owner_allocator: &mut IdAllocator) -> (player: Player)
        requires
            old(owner_allocator).remaining() >= 2,
        ensures
            player.wf(),
            player.entity_id == entity_id,
            player.position == (Point3 { x: 0, y: 0, z: 0 }),
            !player.is_jumping,
            player.surroundings_owner == OwnerId(old(owner_allocator).spec_next() as u32),
            player.solid_owner == OwnerId((old(owner_allocator).spec_next() + 1) as u32),
            final(owner_allocator).spec_next() == old(owner_allocator).spec_next() + 2,
            player.surroundings_loader.spec_last_position() is None,
            player.surroundings_loader.spec_max_load_distance() == LOAD_DISTANCE,
            player.surroundings_loader.spec_lod_thresholds() == spec_lod_thresholds(),
            player.solid_boundary.spec_last_position() is None,
            player.solid_boundary.spec_max_load_distance() == 1,
            player.solid_boundary.spec_lod_thresholds() == Seq::<i32>::empty(),
            player.surroundings_loader.recheck() == Seq::<BlockPosition>::empty(),
            player.solid_boundary.recheck() == Seq::<BlockPosition>::empty(),
    {
        let surroundings_owner = OwnerId(owner_allocator.allocate());
        let solid_owner = OwnerId(owner_allocator.allocate());
        Player {
            entity_id,
            position: Point3 { x: 0, y: 0, z: 0 },
            is_jumping: false,
            surroundings_owner,
            solid_owner,
            surroundings_loader: SurroundingsLoader::new(LOAD_DISTANCE, lod_thresholds()),
            solid_boundary: SurroundingsLoader::new(1, Vec::new()),
        }
    }
}

/// What a mob is up to. A mob walks until it is next to the player, then
/// waits for the player to go away, then follows the player, and once it
/// has caught up waits for the player to step away before it starts over.
#[derive(Debug, Copy, Clone, PartialEq, Eq, Structural)]
pub enum Behavior {
    Walk,
    WaitForDistance,
    FollowPlayer,
    WaitToReset,
}

impl Behavior {
    /// What a mob is up to next, given the square of twice its distance
    /// from the player in fixed-point units.
    pub open spec fn spec_next(self, doubled_distance_squared: int) -> Behavior {
        let unit = 4 * FIXED_ONE * FIXED_ONE;
        match self {
            Behavior::Walk => if doubled_distance_squared < 4 * unit {
                Behavior::WaitForDistance
            } else {
                Behavior::Walk
            },
            Behavior::WaitForDistance => if doubled_distance_squared > 64 * unit {
                Behavior::FollowPlayer
            } else {
                Behavior::WaitForDistance
            },
            Behavior::FollowPlayer => if doubled_distance_squared < 4 * unit {
                Behavior::WaitToReset
            } else {
                Behavior::FollowPlayer
            },
            Behavior::WaitToReset => if doubled_distance_squared >= 4 * unit {
                Behavior::Walk
            } else {
                Behavior::WaitToReset
            },
        }
    }

    /// What a mob is up to next: it changes its mind when the player is
    /// less than two units away, more than eight units away, less than two
    /// units away again, and two units away or more, in that order.
    pub fn next(self, doubled_distance_squared: u128) -> (b: Behavior)
        ensures
            b == self.spec_next(doubled_distance_squared as int),
    {
        assert(FIXED_ONE == 1024);
        let unit: u128 = 4 * 1024 * 1024;
        match self {
            Behavior::Walk => if doubled_distance_squared < 4 * unit {
                Behavior::WaitForDistance
            } else {
                Behavior::Walk
            },
            Behavior::WaitForDistance => if doubled_distance_squared > 64 * unit {
                Behavior::FollowPlayer
            } else {
                Behavior::WaitForDistance
            },
            Behavior::FollowPlayer => if doubled_distance_squared < 4 * unit {
                Behavior::WaitToReset
            } else {
                Behavior::FollowPlayer
            },
            Behavior::WaitToReset => if doubled_distance_squared >= 4 * unit {
                Behavior::Walk
            } else {
                Behavior::WaitToReset
            },
        }
    }
}

/// The square of twice the distance between the middles of two boxes, in
/// fixed-point units.
pub open spec fn spec_doubled_distance_squared(a: Aabb3, b: Aabb3) -> int {
    let dx = (a.min.x + a.max.x) - (b.min.x + b.max.x);
    let dy = (a.min.y + a.max.y) - (b.min.y + b.max.y);
    let dz = (a.min.z + a.max.z) - (b.min.z + b.max.z);
    dx * dx + dy * dy + dz * dz
}

fn doubled_difference(lo_a: i64, hi_a: i64, lo_b: i64, hi_b: i64) -> (d: i128)
    requires
        in_world(lo_a) && in_world(hi_a) && in_world(lo_b) && in_world(hi_b),
    ensures
        d == (lo_a + hi_a) - (lo_b + hi_b),
        -0x400_0000_0000 <= d <= 0x400_0000_0000,
{
    (lo_a as i128 + hi_a as i128) - (lo_b as i128 + hi_b as i128)
}

fn square(d: i128) -> (s: u128)
    requires
        -0x400_0000_0000 <= d <= 0x400_0000_0000,
    ensures
        s == d * d,
        s <= 0x10_0000_0000_0000_0000_0000,
{
    assert(0 <= d * d <= 0x10_0000_0000_0000_0000_0000) by (nonlinear_arith)
        requires
            -0x400_0000_0000 <= d <= 0x400_0000_0000,
    ;
    (d * d) as u128
}

/// The square of twice the distance between the middles of two boxes, in
/// fixed-point units.
pub fn doubled_distance_squared(a: &Aabb3, b: &Aabb3) -> (d: u128)
    requires
        box_in_world(*a),
        box_in_world(*b),
    ensures
        d == spec_doubled_distance_squared(*a, *b),
{
    let dx = doubled_difference(a.min.x, a.max.x, b.min.x, b.max.x);
    let dy = doubled_difference(a.min.y, a.max.y, b.min.y, b.max.y);
    let dz = doubled_difference(a.min.z, a.max.z, b.min.z, b.max.z);
    square(dx) + square(dy) + square(dz)
}

/// A mob: an entity that moves by itself, and around which terrain is kept
/// solid.
pub struct Mob {
    pub entity_id: EntityId,
    pub owner_id: OwnerId,
    pub position: Point3,
    pub behavior: Behavior,
    /// Keeps the blocks next to the mob solid.
    pub surroundings_loader: SurroundingsLoader,
}

impl Mob {
    /// The mob's surroundings loader is well formed.
    pub open spec fn wf(self) -> bool {
        self.surroundings_loader.wf()
    }
}

/// The state of the server.
pub struct Server {
    pub players: Vec<Player>,
    pub mobs: Vec<Mob>,
    pub clients: Vec<ClientId>,
    pub id_allocator: IdAllocator,
    pub owner_allocator: IdAllocator,
    pub client_allocator: IdAllocator,
    pub physics: Physics,
    pub terrain_game_loader: TerrainGameLoader,
}

impl Server {
    /// The terrain loader, the players and the mobs are well formed.
    pub open spec fn wf(self) -> bool {
        &&& self.terrain_game_loader.wf()
        &&& forall|i: int| 0 <= i < self.players@.len() ==> (#[trigger] self.players@[i]).wf()
        &&& forall|i: int| 0 <= i < self.mobs@.len() ==> (#[trigger] self.mobs@[i]).wf()
    }

    /// Whether the terrain loader, the collider store and the allocator of
    /// entities belong together.
    pub open spec fn consistent(self) -> bool {
        consistent(self.terrain_game_loader, self.physics, self.id_allocator)
    }

    /// The place of a player in the list of players, or -1 where there is
    /// no such player. Of several with the same entity, the last.
    pub open spec fn player_index(players: Seq<Player>, id: EntityId) -> int
        decreases players.len(),
    {
        if players.len() == 0 {
            -1
        } else if players.last().entity_id == id {
            players.len() - 1
        } else {
            Server::player_index(players.drop_last(), id)
        }
    }

    /// Whether there is a player with the given entity.
    pub open spec fn has_player(self, id: EntityId) -> bool {
        Server::player_index(self.players@, id) >= 0
    }

    /// Whether a client with the given id is connected.
    pub open spec fn has_client(self, id: ClientId) -> bool {
        self.clients@.contains(id)
    }

    /// A server without clients, players or mobs, and without terrain.
    pub fn new() -> (server: Server)
        ensures
            server.wf(),
            server.consistent(),
            server.players@.len() == 0,
            server.mobs@.len() == 0,
            server.clients@.len() == 0,
            server.id_allocator.spec_next() == 0,
            server.owner_allocator.spec_next() == 0,
            server.client_allocator.spec_next() == 0,
            server.physics.terrain() == Map::<EntityId, Aabb3>::empty(),
            server.physics.misc() == Map::<EntityId, Aabb3>::empty(),
            forall|p: BlockPosition| #[trigger] server.terrain_game_loader.lod_map.requests(p) == Seq::<
                (OwnerId, crate::lod::LOD),
            >::empty(),
            forall|p: BlockPosition| #[trigger] server.terrain_game_loader.lod_map.loaded(p) is None,
            forall|p: BlockPosition| #[trigger] server.terrain_game_loader.in_progress_terrain.placeholder(p) is None,
            forall|p: BlockPosition, l: crate::lod::LODIndex| #[trigger]
                server.terrain_game_loader.terrain.cached(p, l) is None,
            forall|p: BlockPosition| #[trigger] server.terrain_game_loader.lod_map.reported(p) == Set::<
                crate::lod::LOD,
            >::empty(),
            forall|b: crate::voxel::Bounds| #[trigger]
                server.terrain_game_loader.terrain.spec_voxels().slot_of(b) == crate::voxel_tree::TreeBody::Empty,
            forall|b: crate::voxel::Bounds| #[trigger] server.terrain_game_loader.terrain.spec_voxels().leaf(b) is None,
            server.terrain_game_loader.terrain.spec_voxels().spec_lg_size() == 0,
            server.terrain_game_loader.terrain.spec_terrain_seed() == 0,
            server.terrain_game_loader.terrain.spec_treemap().spec_seed() == 0,
    {
        let server = Server {
            players: Vec::new(),
            mobs: Vec::new(),
            clients: Vec::new(),
            id_allocator: IdAllocator::new(),
            owner_allocator: IdAllocator::new(),
            client_allocator: IdAllocator::new(),
            physics: Physics::new(),
            terrain_game_loader: TerrainGameLoader::new(),
        };
        proof {
            lemma_empty_consistent(server.terrain_game_loader, server.physics, server.id_allocator);
        }
        server
    }

    /// Where a player is in the list of players.
    pub fn find_player(&self, id: EntityId) -> (found: Option<usize>)
        ensures
            found matches Some(i) ==> i == Server::player_index(self.players@, id) && i < self.players@.len()
                && self.players@[i as int].entity_id == id,
            found is None ==> !self.has_player(id),
    {
        let mut i: usize = self.players.len();
        assert(self.players@.take(i as int) =~= self.players@);
        while i > 0
            invariant
                i <= self.players@.len(),
                Server::player_index(self.players@, id) == Server::player_index(self.players@.take(i as int), id),
            decreases i,
        {
            if self.players[i - 1].entity_id == id {
                return Some(i - 1);
            }
            assert(self.players@.take(i as int).drop_last() =~= self.players@.take(i - 1));
            i = i - 1;
        }
        None
    }

    /// Whether a client is connected.
    pub fn knows_client(&self, id: ClientId) -> (known: bool)
        ensures
            known == self.has_client(id),
    {
        let mut i: usize = 0;
        while i < self.clients.len()
            invariant
                i <= self.clients@.len(),
                forall|k: int| 0 <= k < i ==> self.clients@[k] != id,
            decreases self.clients@.len() - i,
        {
            if self.clients[i] == id {
                return true;
            }
            i = i + 1;
        }
        false
    }
}

} // verus!

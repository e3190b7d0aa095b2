//! The messages that clients and the server send each other.

use crate::block_position::BlockPosition;
use crate::entity::EntityId;
use crate::lod::LODIndex;
use crate::terrain_block::{Aabb3, Point3, TerrainBlock};
use vstd::prelude::*;

verus! {

/// Names a client that is connected to the server.
#[derive(Debug, Copy, Clone, PartialEq, Eq, PartialOrd, Ord, Hash, Structural)]
pub struct ClientId(pub u32);

/// Messages the client sends to the server. Vectors are in fixed-point
/// units.
pub enum ClientToServer {
    /// Notify the server that the client exists, and provide a "return address".
    Init(String),
    /// Ping
    Ping(ClientId),
    /// Ask the server to create a new player.
    AddPlayer(ClientId),
    /// Add a vector the player's acceleration.
    Walk(EntityId, Point3),
    /// Rotate the player by some amount.
    RotatePlayer(EntityId, Point3),
    /// [Try to] start a jump for the player.
    StartJump(EntityId),
    /// [Try to] stop a jump for the player.
    StopJump(EntityId),
    /// Ask the server to send a block of terrain.
    RequestBlock(ClientId, BlockPosition, LODIndex),
    /// Remove the voxel that the player looks at.
    RemoveVoxel(EntityId),
}

/// Messages the server sends to the client.
pub enum ServerToClient {
    /// Provide the client a unique id to tag its messages.
    LeaseId(ClientId),
    /// Ping
    Ping,
    /// Complete an AddPlayer request.
    PlayerAdded(EntityId, Point3),
    /// Update a player's position.
    UpdatePlayer(EntityId, Aabb3),
    /// Update the client's view of a mob with a given mesh.
    UpdateMob(EntityId, Aabb3),
    /// The sun's progression through the sky, as a fixed-point fraction of
    /// a whole turn.
    UpdateSun(i64),
    /// Provide a block of terrain to a client.
    TerrainBlockSend(BlockPosition, LODIndex, TerrainBlock),
}

} // verus!

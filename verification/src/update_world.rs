//! What the per-tick update of the world does with the messages of the
//! surroundings loaders of its players and mobs.

use crate::id_allocator::IdAllocator;
use crate::lod::{LODIndex, OwnerId, LOD};
use crate::physics::Physics;
use crate::surroundings_loader::LODChange;
use crate::terrain_block::NUM_LODS;
use crate::terrain_game_loader::{loads, unloads, TerrainGameLoader};
use crate::update_gaia::ServerToGaia;
use vstd::prelude::*;

verus! {

/// The level of detail that goes with a distance, given the distances up
/// to which the levels of detail 0, 1 and so on are asked for: the number
/// of thresholds that the distance is beyond, and at most the coarsest
/// level of detail.
pub open spec fn spec_lod_for_distance(thresholds: Seq<i32>, distance: int) -> LODIndex
    decreases thresholds.len(),
{
    if thresholds.len() == 0 {
        LODIndex(0)
    } else {
        let below = spec_lod_for_distance(thresholds.drop_last(), distance);
        if distance > thresholds.last() && below.0 + 1 < NUM_LODS {
            LODIndex((below.0 + 1) as u32)
        } else {
            below
        }
    }
}

/// The level of detail that goes with a distance.
pub fn lod_for_distance(thresholds: &Vec<i32>, distance: i32) -> (lod: LODIndex)
    ensures
        lod == spec_lod_for_distance(thresholds@, distance as int),
        lod.0 < NUM_LODS,
{
    let mut lod: u32 = 0;
    let mut i: usize = 0;
    assert(thresholds@.take(0) =~= Seq::empty());
    while i < thresholds.len()
        invariant
            i <= thresholds@.len(),
            lod < NUM_LODS,
            LODIndex(lod) == spec_lod_for_distance(thresholds@.take(i as int), distance as int),
        decreases thresholds@.len() - i,
    {
        assert(thresholds@.take(i + 1).drop_last() =~= thresholds@.take(i as int));
        if distance > thresholds[i] && lod + 1 < NUM_LODS {
            lod = lod + 1;
        }
        i = i + 1;
    }
    assert(thresholds@.take(i as int) =~= thresholds@);
    LODIndex(lod)
}

/// Hand a message of a surroundings loader that keeps blocks solid on to
/// the terrain loader: a placeholder is asked for on the owner's behalf
/// where the message acquires a block, and the owner's request is
/// withdrawn where it releases one. A placeholder needs no mesh, so
/// nothing is ever asked of the generator.
pub fn load_placeholders(
    owner: OwnerId,
    loader: &mut TerrainGameLoader,
    id_allocator: &mut IdAllocator,
    physics: &mut Physics,
    lod_change: LODChange,
) -> (request: Option<ServerToGaia>)
    requires
        old(loader).wf(),
        old(id_allocator).remaining() >= 1,
    ensures
        request is None,
        match lod_change {
            LODChange::Load(pos, _) => loads(
                *old(loader),
                *old(physics),
                *old(id_allocator),
                *final(loader),
                *final(physics),
                *final(id_allocator),
                pos,
                LOD::Placeholder,
                owner,
                request,
            ),
            LODChange::Unload(pos) => {
                &&& unloads(*old(loader), *old(physics), *final(loader), *final(physics), pos, owner)
                &&& *final(id_allocator) == *old(id_allocator)
            },
        },
{
    match lod_change {
        LODChange::Load(pos, _) => loader.load(id_allocator, physics, &pos, LOD::Placeholder, owner),
        LODChange::Unload(pos) => {
            loader.unload(physics, &pos, owner);
            None
        },
    }
}

/// Hand a message of a surroundings loader that keeps blocks meshed on to
/// the terrain loader: the level of detail that goes with the distance is
/// asked for on the owner's behalf where the message acquires a block, and
/// the owner's request is withdrawn where it releases one. Returns the
/// request to generate a mesh, if the terrain loader makes one.
pub fn load_surroundings(
    owner: OwnerId,
    thresholds: &Vec<i32>,
    loader: &mut TerrainGameLoader,
    id_allocator: &mut IdAllocator,
    physics: &mut Physics,
    lod_change: LODChange,
) -> (request: Option<ServerToGaia>)
    requires
        old(loader).wf(),
        old(id_allocator).remaining() >= 1,
    ensures
        match lod_change {
            LODChange::Load(pos, distance) => loads(
                *old(loader),
                *old(physics),
                *old(id_allocator),
                *final(loader),
                *final(physics),
                *final(id_allocator),
                pos,
                LOD::LodIndex(spec_lod_for_distance(thresholds@, distance as int)),
                owner,
                request,
            ),
            LODChange::Unload(pos) => {
                &&& unloads(*old(loader), *old(physics), *final(loader), *final(physics), pos, owner)
                &&& request is None
                &&& *final(id_allocator) == *old(id_allocator)
            },
        },
{
    match lod_change {
        LODChange::Load(pos, distance) => {
            let lod = lod_for_distance(thresholds, distance);
            loader.load(id_allocator, physics, &pos, LOD::LodIndex(lod), owner)
        },
        LODChange::Unload(pos) => {
            loader.unload(physics, &pos, owner);
            None
        },
    }
}

} // verus!

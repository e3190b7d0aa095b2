//! Creator of the earth.

use crate::block_position::BlockPosition;
use crate::communicate::{ClientId, ServerToClient};
use crate::field::FieldSamples;
use crate::generate::is_mesh_of;
use crate::mesh::{covers_block, max_block_triangles, spec_block_touched, spec_block_triangles};
use crate::stored::{filled, keeps, read_alike};
use crate::id_allocator::IdAllocator;
use crate::lod::{LODIndex, OwnerId, LOD};
use crate::physics::Physics;
use crate::terrain_block::{spec_lg_sample_size, TerrainBlockView, NUM_LODS};
use crate::invariants::{lemma_sound_generated, lemma_sound_same};
use crate::terrain_game_loader::{
    consistent, installs, lemma_install_uninstall, loads, misc_uninstalled,
    placeholder_uninstalled, terrain_uninstalled, unloads, with_bounds, TerrainGameLoader,
};
use vstd::prelude::*;

verus! {

/// Why a block is loaded: to be installed in the game for an owner, or to
/// be sent to a client.
#[derive(Debug, Copy, Clone, PartialEq, Eq, Structural)]
pub enum LoadReason {
    Local(OwnerId),
    ForClient(ClientId),
}

/// What the server asks of the terrain generator.
#[derive(Debug, Copy, Clone, PartialEq, Eq, Structural)]
pub enum ServerToGaia {
    Load(BlockPosition, LODIndex, LoadReason),
}

/// The mesh that answers a request to load a block: the one that the
/// terrain keeps or, where it keeps none, the one that is generated.
pub open spec fn mesh_loaded(
    loader: TerrainGameLoader,
    field: FieldSamples,
    position: BlockPosition,
    lod: LODIndex,
    first: int,
    mesh: TerrainBlockView,
) -> bool {
    match loader.terrain.cached(position, lod) {
        Some(kept) => mesh == kept,
        None => is_mesh_of(mesh, spec_block_triangles(loader.terrain.spec_voxels(), field, position, lod), first),
    }
}

/// Whether a request to load a block can be answered: the terrain keeps
/// the mesh, or the mesh can be generated.
pub open spec fn can_load(loader: TerrainGameLoader, field: FieldSamples, position: BlockPosition, lod: LODIndex) -> bool {
    loader.terrain.spec_can_load(field, position, lod)
}

/// What serving a request to load a block does: the mesh is kept from now
/// on. A mesh that was asked for on behalf of
/// an owner is installed as by `insert_block`, unless it is stale; one that
/// was asked for by a client is to be sent to that client, and nothing is
/// installed. Whatever happens, a loader, a store and an allocator that
/// belonged together go on doing so.
pub open spec fn serves(
    before: TerrainGameLoader,
    physics_before: Physics,
    ids_before: IdAllocator,
    after: TerrainGameLoader,
    physics_after: Physics,
    ids_after: IdAllocator,
    field: FieldSamples,
    update: ServerToGaia,
    send: Option<(ClientId, ServerToClient)>,
) -> bool {
    &&& after.wf()
    &&& match update {
            ServerToGaia::Load(position, lod, reason) => {
                &&& after.terrain.same_cache_elsewhere(before.terrain, position, lod)
                &&& after.terrain.spec_terrain_seed() == before.terrain.spec_terrain_seed()
                &&& after.terrain.spec_treemap() == before.terrain.spec_treemap()
                &&& read_alike(after.terrain.spec_voxels(), before.terrain.spec_voxels(), field, spec_lg_sample_size(lod))
                &&& keeps(after.terrain.spec_voxels(), before.terrain.spec_voxels(), field, spec_lg_sample_size(lod))
                &&& before.terrain.cached(position, lod) is Some ==> after.terrain.spec_voxels()
                    == before.terrain.spec_voxels()
                &&& before.terrain.cached(position, lod) is None ==> filled(
                    after.terrain.spec_voxels(),
                    before.terrain.spec_voxels(),
                    field,
                    spec_lg_sample_size(lod),
                    spec_block_touched(before.terrain.spec_voxels(), field, position, lod),
                )
                &&& after.terrain.cached(position, lod) is Some
                &&& after.terrain.cached(position, lod) matches Some(mesh) ==> mesh_loaded(
                    before,
                    field,
                    position,
                    lod,
                    ids_before.spec_next(),
                    mesh,
                )
                &&& ids_after.spec_next() == ids_before.spec_next() + (match (
                    before.terrain.cached(position, lod),
                    after.terrain.cached(position, lod),
                ) {
                    (None, Some(mesh)) => mesh.ids.len() as int,
                    _ => 0int,
                })
                &&& after.lod_map.requests(position) == before.lod_map.requests(position)
                &&& after.lod_map.same_elsewhere(before.lod_map, position)
                &&& match reason {
                    LoadReason::Local(_) => {
                        &&& send is None
                        &&& after.in_progress_terrain.same_elsewhere(before.in_progress_terrain, position)
                        &&& if installs(before.lod_map, position, LOD::LodIndex(lod)) {
                            &&& after.lod_map.loaded(position) == Some(LOD::LodIndex(lod))
                            &&& physics_after.terrain() == with_bounds(
                                terrain_uninstalled(
                                    physics_before.terrain(),
                                    after.terrain,
                                    position,
                                    before.lod_map.loaded(position),
                                ),
                                after.terrain.cached(position, lod)->Some_0.bounds,
                            )
                            &&& physics_after.misc() == misc_uninstalled(
                                physics_before.misc(),
                                before.in_progress_terrain,
                                position,
                                before.lod_map.loaded(position),
                            )
                            &&& after.in_progress_terrain.placeholder(position) == placeholder_uninstalled(
                                before.in_progress_terrain,
                                position,
                                before.lod_map.loaded(position),
                            )
                        } else {
                            &&& after.lod_map.loaded(position) == before.lod_map.loaded(position)
                            &&& physics_after.terrain() == physics_before.terrain()
                            &&& physics_after.misc() == physics_before.misc()
                            &&& after.in_progress_terrain.placeholder(position) == before.in_progress_terrain.placeholder(position)
                        }
                    },
                    LoadReason::ForClient(id) => {
                        &&& after.in_progress_terrain == before.in_progress_terrain
                        &&& after.lod_map.loaded(position) == before.lod_map.loaded(position)
                        &&& physics_after.terrain() == physics_before.terrain()
                        &&& physics_after.misc() == physics_before.misc()
                        &&& send is Some
                        &&& send matches Some((to, message)) ==> to == id && (message matches ServerToClient::TerrainBlockSend(
                            p,
                            l,
                            block,
                        ) && p == position && l == lod && after.terrain.cached(position, lod) == Some(block@))
                    },
                }
            },
        }
    &&& consistent(before, physics_before, ids_before) ==> consistent(
            after,
            physics_after,
            ids_after,
        )
}

/// Serve a request to load a block. The mesh is taken from the terrain,
/// which generates and keeps it if it has to. A mesh that was asked for on
/// behalf of an owner is installed in the game, unless it is stale; one
/// that was asked for by a client is returned, to be sent to that client.
pub fn update_gaia(
    loader: &mut TerrainGameLoader,
    id_allocator: &mut IdAllocator,
    physics: &mut Physics,
    field: &FieldSamples,
    update: ServerToGaia,
) -> (send: Option<(ClientId, ServerToClient)>)
    requires
        old(loader).wf(),
        field.wf(),
        match update {
            ServerToGaia::Load(position, lod, _) => {
                &&& position.in_range()
                &&& lod.0 < NUM_LODS
                &&& covers_block(*field, position, lod)
                &&& can_load(*old(loader), *field, position, lod)
                &&& old(id_allocator).remaining() >= max_block_triangles(lod)
            },
        },
    ensures
        serves(
            *old(loader),
            *old(physics),
            *old(id_allocator),
            *final(loader),
            *final(physics),
            *final(id_allocator),
            *field,
            update,
            send,
        ),
{
    match update {
        ServerToGaia::Load(position, lod, load_reason) => {
            let ghost before = *loader;
            let _ = loader.terrain.load(id_allocator, field, &position, lod);
            proof {
                id_allocator.lemma_next_in_range();
                old(id_allocator).lemma_next_in_range();
                if consistent(before, *physics, *old(id_allocator)) {
                    let cache = |p: BlockPosition, l: LODIndex| before.terrain.cached(p, l);
                    let cache2 = |p: BlockPosition, l: LODIndex| loader.terrain.cached(p, l);
                    let loaded_there = |p: BlockPosition| loader.lod_map.loaded(p);
                    let placeholder = |p: BlockPosition| loader.in_progress_terrain.placeholder(p);
                    lemma_sound_same(
                        |p: BlockPosition, l: LODIndex| before.terrain.cached(p, l),
                        |p: BlockPosition| before.lod_map.loaded(p),
                        |p: BlockPosition| before.in_progress_terrain.placeholder(p),
                        cache,
                        loaded_there,
                        placeholder,
                        physics.terrain(),
                        physics.misc(),
                        old(id_allocator).spec_next(),
                    );
                    if before.terrain.cached(position, lod) is None {
                        lemma_sound_generated(
                            cache,
                            loaded_there,
                            placeholder,
                            physics.terrain(),
                            physics.misc(),
                            old(id_allocator).spec_next(),
                            position,
                            lod,
                            cache2,
                        );
                    } else {
                        assert forall|p: BlockPosition, l: LODIndex| #[trigger] cache2(p, l) == cache(p, l) by {}
                        lemma_sound_same(
                            cache,
                            loaded_there,
                            placeholder,
                            cache2,
                            loaded_there,
                            placeholder,
                            physics.terrain(),
                            physics.misc(),
                            old(id_allocator).spec_next(),
                        );
                    }
                    assert(consistent(*loader, *physics, *id_allocator));
                }
            }
            let block = match loader.terrain.get(&position, lod) {
                Some(block) => block,
                None => vstd::pervasive::unreached(),
            };
            match load_reason {
                LoadReason::Local(_) => {
                    TerrainGameLoader::insert_block(
                        block,
                        &position,
                        lod,
                        physics,
                        &loader.terrain,
                        &mut loader.lod_map,
                        &mut loader.in_progress_terrain,
                    );
                    None
                },
                LoadReason::ForClient(id) => {
                    Some((id, ServerToClient::TerrainBlockSend(position, lod, block.copy())))
                },
            }
        },
    }
}

/// Loading and then unloading a block leaves the colliders exactly as they
/// were before the load, where the load is complete when the unloading
/// begins and nobody else claims the block. This is the case of a mesh
/// that is not kept: the load asks for it, and is complete when the request
/// has been served.
pub proof fn lemma_load_serve_unload_round_trip(
    before: TerrainGameLoader,
    physics_before: Physics,
    ids_before: IdAllocator,
    asked: TerrainGameLoader,
    physics_asked: Physics,
    ids_asked: IdAllocator,
    served: TerrainGameLoader,
    physics_served: Physics,
    ids_served: IdAllocator,
    after: TerrainGameLoader,
    physics_after: Physics,
    field: FieldSamples,
    position: BlockPosition,
    lod: LODIndex,
    owner: OwnerId,
    send: Option<(ClientId, ServerToClient)>,
)
    requires
        before.wf(),
        consistent(before, physics_before, ids_before),
        before.lod_map.requests(position).len() == 0,
        loads(
            before,
            physics_before,
            ids_before,
            asked,
            physics_asked,
            ids_asked,
            position,
            LOD::LodIndex(lod),
            owner,
            Some(ServerToGaia::Load(position, lod, LoadReason::Local(owner))),
        ),
        serves(
            asked,
            physics_asked,
            ids_asked,
            served,
            physics_served,
            ids_served,
            field,
            ServerToGaia::Load(position, lod, LoadReason::Local(owner)),
            send,
        ),
        unloads(served, physics_served, after, physics_after, position, owner),
    ensures
        physics_after.terrain() == physics_before.terrain(),
        physics_after.misc() == physics_before.misc(),
        after.lod_map.requests(position) == before.lod_map.requests(position),
        after.lod_map.loaded(position) == before.lod_map.loaded(position),
        after.in_progress_terrain.placeholder(position) == before.in_progress_terrain.placeholder(position),
{
    let none = before.lod_map.requests(position);
    let one = asked.lod_map.requests(position);
    let demand = LOD::LodIndex(lod);
    before.lod_map.lemma_wf(position);
    ids_asked.lemma_next_in_range();
    ids_served.lemma_next_in_range();
    assert(none =~= Seq::empty());
    assert(one =~= seq![(owner, demand)]);
    reveal_with_fuel(crate::lod::max_lod, 3);
    reveal_with_fuel(crate::lod::position_of, 3);
    assert(one.drop_last() =~= Seq::empty());
    assert(crate::lod::max_lod(one) == Some(demand));
    assert(crate::lod::position_of(one, owner) == 0);
    assert(crate::lod::without_request(one, owner) =~= Seq::empty());
    let placeholder = |p: BlockPosition| before.in_progress_terrain.placeholder(p);
    assert(placeholder(position) is Some ==> before.lod_map.loaded(position) == Some(LOD::Placeholder));
    assert(asked.lod_map.loaded(position) is None);
    assert(asked.terrain.cached(position, lod) is None);
    {
        let mesh = served.terrain.cached(position, lod)->Some_0;
        assert(installs(asked.lod_map, position, demand));
        assert(mesh.wf());
        assert(consistent(asked, physics_asked, ids_asked));
        assert forall|i: int| 0 <= i < mesh.ids.len() implies !physics_asked.terrain().contains_key(
            #[trigger] mesh.ids[i],
        ) by {
            assert(mesh.ids[i].0 == ids_asked.spec_next() + i);
        }
        lemma_install_uninstall(physics_asked.terrain(), mesh);
    }
}

} // verus!

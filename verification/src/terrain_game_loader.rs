//! Loading and unloading of terrain blocks into the game.

use crate::block_position::BlockPosition;
use crate::entity::EntityId;
use crate::id_allocator::IdAllocator;
use crate::in_progress_terrain::{spec_block_bounds, InProgressTerrain};
use crate::invariants::{
    lemma_sound_installed, lemma_sound_placeholder, lemma_sound_same, lemma_sound_uninstalled, sound,
};
use crate::lod::{change_between, with_request, without_request, LODIndex, LODMap, LodChange, OwnerId, LOD};
use crate::physics::Physics;
use crate::terrain::Terrain;
use crate::terrain_block::{Aabb3, TerrainBlock, TerrainBlockView};
use crate::update_gaia::{LoadReason, ServerToGaia};
use vstd::prelude::*;

verus! {

/// The colliders that are left when the entities of a list are taken out.
pub open spec fn without_ids(colliders: Map<EntityId, Aabb3>, ids: Seq<EntityId>) -> Map<EntityId, Aabb3>
    decreases ids.len(),
{
    if ids.len() == 0 {
        colliders
    } else {
        without_ids(colliders, ids.drop_last()).remove(ids.last())
    }
}

/// The colliders after the boxes of a list have been filed, each under its
/// entity, in order.
pub open spec fn with_bounds(colliders: Map<EntityId, Aabb3>, bounds: Seq<(EntityId, Aabb3)>) -> Map<
    EntityId,
    Aabb3,
>
    decreases bounds.len(),
{
    if bounds.len() == 0 {
        colliders
    } else {
        with_bounds(colliders, bounds.drop_last()).insert(bounds.last().0, bounds.last().1)
    }
}

/// The terrain colliders after what is loaded for a block has been taken
/// out: where a mesh is loaded and kept, the colliders without the
/// triangles of that mesh.
pub open spec fn terrain_uninstalled(
    colliders: Map<EntityId, Aabb3>,
    terrain: Terrain,
    position: BlockPosition,
    loaded: Option<LOD>,
) -> Map<EntityId, Aabb3> {
    match loaded {
        Some(LOD::LodIndex(lod)) => match terrain.cached(position, lod) {
            Some(block) => without_ids(colliders, block.ids),
            None => colliders,
        },
        _ => colliders,
    }
}

/// The other colliders after what is loaded for a block has been taken
/// out: where a placeholder is loaded, the colliders without it.
pub open spec fn misc_uninstalled(
    colliders: Map<EntityId, Aabb3>,
    in_progress: InProgressTerrain,
    position: BlockPosition,
    loaded: Option<LOD>,
) -> Map<EntityId, Aabb3> {
    match (loaded, in_progress.placeholder(position)) {
        (Some(LOD::Placeholder), Some(id)) => colliders.remove(id),
        _ => colliders,
    }
}

/// The placeholder of a block after what is loaded for the block has been
/// taken out.
pub open spec fn placeholder_uninstalled(
    in_progress: InProgressTerrain,
    position: BlockPosition,
    loaded: Option<LOD>,
) -> Option<EntityId> {
    match loaded {
        Some(LOD::Placeholder) => None,
        _ => in_progress.placeholder(position),
    }
}

/// An entity is among the colliders that are left when the entities of a
/// list are taken out just where it was among the colliders and is not in
/// the list; and its box is then the same.
pub proof fn lemma_without_ids(colliders: Map<EntityId, Aabb3>, ids: Seq<EntityId>, id: EntityId)
    ensures
        without_ids(colliders, ids).contains_key(id) <==> colliders.contains_key(id) && !ids.contains(id),
        without_ids(colliders, ids).contains_key(id) ==> without_ids(colliders, ids)[id] == colliders[id],
    decreases ids.len(),
{
    if ids.len() > 0 {
        let rest = ids.drop_last();
        lemma_without_ids(colliders, rest, id);
        if rest.contains(id) {
            let i = choose|i: int| 0 <= i < rest.len() && rest[i] == id;
            assert(ids[i] == id);
        }
        if ids.contains(id) {
            let i = choose|i: int| 0 <= i < ids.len() && ids[i] == id;
            if i < rest.len() {
                assert(rest[i] == id);
            }
        }
        if id == ids.last() {
            assert(ids[ids.len() - 1] == id);
        }
    }
}

/// An entity is among the colliders after the boxes of a list have been
/// filed just where it was among the colliders or has a box in the list.
pub proof fn lemma_with_bounds(colliders: Map<EntityId, Aabb3>, bounds: Seq<(EntityId, Aabb3)>, id: EntityId)
    ensures
        with_bounds(colliders, bounds).contains_key(id) <==> colliders.contains_key(id) || exists|i: int|
            0 <= i < bounds.len() && (#[trigger] bounds[i]).0 == id,
        !(exists|i: int| 0 <= i < bounds.len() && (#[trigger] bounds[i]).0 == id) && colliders.contains_key(id)
            ==> with_bounds(colliders, bounds)[id] == colliders[id],
    decreases bounds.len(),
{
    if bounds.len() > 0 {
        let rest = bounds.drop_last();
        lemma_with_bounds(colliders, rest, id);
        if exists|i: int| 0 <= i < rest.len() && (#[trigger] rest[i]).0 == id {
            let i = choose|i: int| 0 <= i < rest.len() && (#[trigger] rest[i]).0 == id;
            assert(bounds[i].0 == id);
        }
        if exists|i: int| 0 <= i < bounds.len() && (#[trigger] bounds[i]).0 == id {
            let i = choose|i: int| 0 <= i < bounds.len() && (#[trigger] bounds[i]).0 == id;
            if i < rest.len() {
                assert(rest[i].0 == id);
            }
        }
        if bounds.last().0 == id {
            assert(bounds[bounds.len() - 1].0 == id);
        }
    }
}

/// Installing a mesh and taking it out again leaves the colliders as they
/// were, where none of the entities of the mesh was among them.
pub proof fn lemma_install_uninstall(colliders: Map<EntityId, Aabb3>, mesh: TerrainBlockView)
    requires
        mesh.wf(),
        forall|i: int| 0 <= i < mesh.ids.len() ==> !colliders.contains_key(#[trigger] mesh.ids[i]),
    ensures
        without_ids(with_bounds(colliders, mesh.bounds), mesh.ids) == colliders,
{
    let installed = with_bounds(colliders, mesh.bounds);
    let after = without_ids(installed, mesh.ids);
    assert forall|id: EntityId|
        (#[trigger] after.dom().contains(id)) == colliders.dom().contains(id) && (after.dom().contains(id)
            ==> after[id] == colliders[id]) by {
        lemma_without_ids(installed, mesh.ids, id);
        lemma_with_bounds(colliders, mesh.bounds, id);
        if exists|i: int| 0 <= i < mesh.bounds.len() && (#[trigger] mesh.bounds[i]).0 == id {
            let i = choose|i: int| 0 <= i < mesh.bounds.len() && (#[trigger] mesh.bounds[i]).0 == id;
            assert(mesh.ids[i] == id);
        }
        if mesh.ids.contains(id) {
            let i = choose|i: int| 0 <= i < mesh.ids.len() && mesh.ids[i] == id;
            assert(!colliders.contains_key(mesh.ids[i]));
        }
    }
    assert(after =~= colliders);
}

/// Take the colliders of the triangles of a mesh out of the store.
fn remove_block(physics: &mut Physics, block: &TerrainBlock)
    ensures
        final(physics).terrain() == without_ids(old(physics).terrain(), block@.ids),
        final(physics).misc() == old(physics).misc(),
{
    let mut i: usize = 0;
    assert(block.ids@.take(0) =~= Seq::empty());
    while i < block.ids.len()
        invariant
            i <= block.ids@.len(),
            physics.terrain() == without_ids(old(physics).terrain(), block.ids@.take(i as int)),
            physics.misc() == old(physics).misc(),
        decreases block.ids@.len() - i,
    {
        assert(block.ids@.take(i + 1).drop_last() =~= block.ids@.take(i as int));
        physics.remove_terrain(block.ids[i]);
        i = i + 1;
    }
    assert(block.ids@.take(i as int) =~= block.ids@);
}

/// File the boxes of the triangles of a mesh in the store.
fn insert_bounds(physics: &mut Physics, block: &TerrainBlock)
    ensures
        final(physics).terrain() == with_bounds(old(physics).terrain(), block@.bounds),
        final(physics).misc() == old(physics).misc(),
{
    let mut i: usize = 0;
    assert(block.bounds@.take(0) =~= Seq::empty());
    while i < block.bounds.len()
        invariant
            i <= block.bounds@.len(),
            physics.terrain() == with_bounds(old(physics).terrain(), block.bounds@.take(i as int)),
            physics.misc() == old(physics).misc(),
        decreases block.bounds@.len() - i,
    {
        assert(block.bounds@.take(i + 1).drop_last() =~= block.bounds@.take(i as int));
        let bound_pair = block.bounds[i];
        physics.insert_terrain(bound_pair.0, bound_pair.1);
        i = i + 1;
    }
    assert(block.bounds@.take(i as int) =~= block.bounds@);
}

/// Take what is loaded for a block out of the store: the placeholder, or
/// the triangles of the mesh.
fn uninstall(
    terrain: &Terrain,
    in_progress_terrain: &mut InProgressTerrain,
    physics: &mut Physics,
    position: &BlockPosition,
    loaded: Option<LOD>,
)
    ensures
        final(physics).terrain() == terrain_uninstalled(old(physics).terrain(), *terrain, *position, loaded),
        final(physics).misc() == misc_uninstalled(old(physics).misc(), *old(in_progress_terrain), *position, loaded),
        final(in_progress_terrain).placeholder(*position) == placeholder_uninstalled(
            *old(in_progress_terrain),
            *position,
            loaded,
        ),
        final(in_progress_terrain).same_elsewhere(*old(in_progress_terrain), *position),
{
    match loaded {
        None => {},
        Some(LOD::Placeholder) => {
            in_progress_terrain.remove(physics, position);
        },
        Some(LOD::LodIndex(loaded_lod)) => {
            match terrain.get(position, loaded_lod) {
                None => {
                    // Unloaded before the load request completed.
                },
                Some(block) => {
                    remove_block(physics, block);
                },
            }
        },
    }
}

/// Load and unload TerrainBlocks from the game.
/// Each TerrainBlock can be owned by a set of owners, each of which can independently request LODs.
/// The maximum LOD requested is the one that is actually loaded.
pub struct TerrainGameLoader {
    pub terrain: Terrain,
    pub in_progress_terrain: InProgressTerrain,
    pub lod_map: LODMap,
}

/// Whether the parts of a loader, a store and a count of allocated
/// entities belong together: the meshes that are kept are well formed and
/// made of allocated entities, none of which belongs to two meshes; a block
/// has a placeholder only while a placeholder is held to be loaded for it;
/// every entity in the store has been allocated; and no triangle of a mesh
/// that is not held to be loaded is in the store.
pub open spec fn consistent_parts(
    terrain: Terrain,
    in_progress: InProgressTerrain,
    lod_map: LODMap,
    physics: Physics,
    next: int,
) -> bool {
    sound(
        |p: BlockPosition, l: LODIndex| terrain.cached(p, l),
        |p: BlockPosition| lod_map.loaded(p),
        |p: BlockPosition| in_progress.placeholder(p),
        physics.terrain(),
        physics.misc(),
        next,
    )
}

/// Whether a loader, a store and an allocator belong together.
pub open spec fn consistent(loader: TerrainGameLoader, physics: Physics, id_allocator: IdAllocator) -> bool {
    consistent_parts(
        loader.terrain,
        loader.in_progress_terrain,
        loader.lod_map,
        physics,
        id_allocator.spec_next(),
    )
}

/// Whether a mesh that arrives for a block at a level of detail is
/// installed: that level of detail is the one to load for the block, and it
/// is not loaded already. A mesh that arrives otherwise is stale.
pub open spec fn installs(lod_map: LODMap, position: BlockPosition, lod: LOD) -> bool {
    lod_map.desired(position) == Some(lod) && lod_map.loaded(position) != Some(lod)
}

/// The entity that the next placeholder is filed under and the box it is
/// given, added to the other colliders of the store; where the block has a
/// placeholder already, the colliders as they are.
pub open spec fn misc_with_placeholder(
    colliders: Map<EntityId, Aabb3>,
    placeholder: Option<EntityId>,
    position: BlockPosition,
    next: int,
) -> Map<EntityId, Aabb3> {
    if placeholder is None {
        colliders.insert(EntityId(next as u32), spec_block_bounds(position))
    } else {
        colliders
    }
}

impl TerrainGameLoader {
    /// The terrain and the map of requests are well formed.
    pub open spec fn wf(self) -> bool {
        &&& self.terrain.wf()
        &&& self.lod_map.wf()
    }

    /// A loader of a terrain of which nothing has been generated, requested or
    /// loaded yet.
    pub fn new() -> (loader: TerrainGameLoader)
        ensures
            loader.wf(),
            forall|p: BlockPosition| #[trigger] loader.lod_map.requests(p) == Seq::<(OwnerId, LOD)>::empty(),
            forall|p: BlockPosition| #[trigger] loader.lod_map.loaded(p) is None,
            forall|p: BlockPosition| #[trigger] loader.in_progress_terrain.placeholder(p) is None,
            forall|p: BlockPosition, l: LODIndex| #[trigger] loader.terrain.cached(p, l) is None,
            forall|b: crate::voxel::Bounds| #[trigger] loader.terrain.spec_voxels().leaf(b) is None,
            forall|b: crate::voxel::Bounds| #[trigger]
                loader.terrain.spec_voxels().slot_of(b) == crate::voxel_tree::TreeBody::Empty,
            loader.terrain.spec_voxels().spec_lg_size() == 0,
            loader.terrain.spec_terrain_seed() == 0,
            loader.terrain.spec_treemap().spec_seed() == 0,
            forall|p: BlockPosition| #[trigger] loader.lod_map.reported(p) == Set::<LOD>::empty(),
    {
        TerrainGameLoader {
            terrain: Terrain::new(0, 0),
            in_progress_terrain: InProgressTerrain::new(),
            lod_map: LODMap::new(),
        }
    }

    /// Install the mesh of a block at a level of detail, unless it is
    /// stale. The map is told that the level of detail is loaded; what was
    /// loaded for the block before is taken out of the store, and the boxes
    /// of the triangles of the mesh are filed. Returns whether the mesh was
    /// installed.
    pub fn insert_block(
        block: &TerrainBlock,
        position: &BlockPosition,
        lod: LODIndex,
        physics: &mut Physics,
        terrain: &Terrain,
        lod_map: &mut LODMap,
        in_progress_terrain: &mut InProgressTerrain,
    ) -> (installed: bool)
        requires
            old(lod_map).wf(),
        ensures
            final(lod_map).wf(),
            installed == installs(*old(lod_map), *position, LOD::LodIndex(lod)),
            final(lod_map).requests(*position) == old(lod_map).requests(*position),
            final(lod_map).reported(*position) == old(lod_map).reported(*position),
            final(lod_map).same_elsewhere(*old(lod_map), *position),
            final(in_progress_terrain).same_elsewhere(*old(in_progress_terrain), *position),
            installed ==> {
                &&& final(lod_map).loaded(*position) == Some(LOD::LodIndex(lod))
                &&& final(physics).terrain() == with_bounds(
                    terrain_uninstalled(old(physics).terrain(), *terrain, *position, old(lod_map).loaded(*position)),
                    block@.bounds,
                )
                &&& final(physics).misc() == misc_uninstalled(
                    old(physics).misc(),
                    *old(in_progress_terrain),
                    *position,
                    old(lod_map).loaded(*position),
                )
                &&& final(in_progress_terrain).placeholder(*position) == placeholder_uninstalled(
                    *old(in_progress_terrain),
                    *position,
                    old(lod_map).loaded(*position),
                )
            },
            !installed ==> {
                &&& final(lod_map).loaded(*position) == old(lod_map).loaded(*position)
                &&& final(physics).terrain() == old(physics).terrain()
                &&& final(physics).misc() == old(physics).misc()
                &&& final(in_progress_terrain).placeholder(*position) == old(in_progress_terrain).placeholder(
                    *position,
                )
            },
            forall|next: int|
                #[trigger] consistent_parts(*terrain, *old(in_progress_terrain), *old(lod_map), *old(physics), next)
                    && terrain.cached(*position, lod) == Some(block@) ==> consistent_parts(
                    *terrain,
                    *final(in_progress_terrain),
                    *final(lod_map),
                    *final(physics),
                    next,
                ),
    {
        let ghost lod_map0 = *lod_map;
        let ghost in_progress0 = *in_progress_terrain;
        let ghost physics0 = *physics;
        let change = match lod_map.set_loaded(*position, LOD::LodIndex(lod)) {
            // The block is stale.
            None => {
                proof {
                    assert forall|next: int| #[trigger]
                        consistent_parts(*terrain, in_progress0, lod_map0, physics0, next) implies consistent_parts(
                        *terrain,
                        *in_progress_terrain,
                        *lod_map,
                        *physics,
                        next,
                    ) by {
                        lemma_same_loaded(
                            *terrain,
                            in_progress0,
                            lod_map0,
                            *in_progress_terrain,
                            *lod_map,
                            physics0,
                            *position,
                            next,
                        );
                    }
                }
                return false;
            },
            Some(change) => change,
        };
        uninstall(terrain, in_progress_terrain, physics, position, change.loaded);
        let ghost physics1 = *physics;
        insert_bounds(physics, block);
        proof {
            assert forall|next: int| #[trigger]
                consistent_parts(*terrain, in_progress0, lod_map0, physics0, next) && terrain.cached(*position, lod)
                    == Some(block@) implies consistent_parts(
                *terrain,
                *in_progress_terrain,
                *lod_map,
                *physics,
                next,
            ) by {
                lemma_uninstalled(
                    *terrain,
                    in_progress0,
                    lod_map0,
                    physics0,
                    *in_progress_terrain,
                    *lod_map,
                    physics1,
                    *position,
                    next,
                );
                lemma_sound_installed(
                    |p: BlockPosition, l: LODIndex| terrain.cached(p, l),
                    |p: BlockPosition| if p == *position { None } else { lod_map.loaded(p) },
                    |p: BlockPosition| in_progress_terrain.placeholder(p),
                    physics1.terrain(),
                    physics1.misc(),
                    next,
                    *position,
                    lod,
                    |p: BlockPosition| lod_map.loaded(p),
                    physics.terrain(),
                );
            }
        }
        true
    }

    /// Record that an owner asks for a block at a level of detail, and
    /// where that changes the greatest demand for the block, see to what
    /// the owner asks for. A placeholder is installed at once, and so is a
    /// mesh that is kept; for a mesh that is not kept, the request to
    /// generate it is returned.
    pub fn load(
        &mut self,
        id_allocator: &mut IdAllocator,
        physics: &mut Physics,
        block_position: &BlockPosition,
        new_lod: LOD,
        owner: OwnerId,
    ) -> (request: Option<ServerToGaia>)
        requires
            old(self).wf(),
            old(id_allocator).remaining() >= 1,
        ensures
            loads(
                *old(self),
                *old(physics),
                *old(id_allocator),
                *final(self),
                *final(physics),
                *final(id_allocator),
                *block_position,
                new_lod,
                owner,
                request,
            ),
    {
        let ghost before = *self;
        let ghost physics0 = *physics;
        let ghost next = id_allocator.spec_next();
        let (_, change) = self.lod_map.insert(*block_position, new_lod, owner);
        proof {
            old(self).lod_map.lemma_wf(*block_position);
            crate::lod::lemma_with_request_distinct(old(self).lod_map.requests(*block_position), owner, new_lod);
            crate::lod::lemma_max_lod(self.lod_map.requests(*block_position));
            id_allocator.lemma_next_in_range();
            if consistent(before, physics0, *id_allocator) {
                lemma_same_loaded(
                    before.terrain,
                    before.in_progress_terrain,
                    before.lod_map,
                    self.in_progress_terrain,
                    self.lod_map,
                    physics0,
                    *block_position,
                    next,
                );
            }
        }
        let ghost recorded = *self;
        let change = match change {
            None => {
                return None;
            },
            Some(change) => change,
        };
        assert(self.lod_map.same_elsewhere(before.lod_map, *block_position));
        match new_lod {
            LOD::Placeholder => {
                match self.lod_map.set_loaded(*block_position, LOD::Placeholder) {
                    None => {
                        proof {
                            self.lod_map.lemma_same_elsewhere_chain(recorded.lod_map, before.lod_map, *block_position);
                            if consistent(before, physics0, *old(id_allocator)) {
                                lemma_same_loaded(
                                    recorded.terrain,
                                    recorded.in_progress_terrain,
                                    recorded.lod_map,
                                    self.in_progress_terrain,
                                    self.lod_map,
                                    physics0,
                                    *block_position,
                                    next,
                                );
                            }
                        }
                    },
                    Some(loaded_change) => {
                        uninstall(
                            &self.terrain,
                            &mut self.in_progress_terrain,
                            physics,
                            block_position,
                            loaded_change.loaded,
                        );
                        let ghost in_progress1 = self.in_progress_terrain;
                        let ghost physics1 = *physics;
                        proof {
                            if consistent(before, physics0, *old(id_allocator)) {
                                lemma_uninstalled(
                                    recorded.terrain,
                                    recorded.in_progress_terrain,
                                    recorded.lod_map,
                                    physics0,
                                    in_progress1,
                                    self.lod_map,
                                    physics1,
                                    *block_position,
                                    next,
                                );
                            }
                        }
                        self.in_progress_terrain.insert(id_allocator, physics, block_position);
                        proof {
                            self.lod_map.lemma_same_elsewhere_chain(recorded.lod_map, before.lod_map, *block_position);
                            if consistent(before, physics0, *old(id_allocator)) {
                                lemma_sound_placeholder(
                                    |p: BlockPosition, l: LODIndex| self.terrain.cached(p, l),
                                    |p: BlockPosition| if p == *block_position { None } else { self.lod_map.loaded(p) },
                                    |p: BlockPosition| in_progress1.placeholder(p),
                                    physics1.terrain(),
                                    physics1.misc(),
                                    next,
                                    *block_position,
                                    |p: BlockPosition| self.lod_map.loaded(p),
                                    |p: BlockPosition| self.in_progress_terrain.placeholder(p),
                                    physics.misc(),
                                );
                            }
                        }
                    },
                }
                None
            },
            LOD::LodIndex(lod) => {
                match self.terrain.get(block_position, lod) {
                    None => Some(ServerToGaia::Load(*block_position, lod, LoadReason::Local(owner))),
                    Some(block) => {
                        TerrainGameLoader::insert_block(
                            block,
                            block_position,
                            lod,
                            physics,
                            &self.terrain,
                            &mut self.lod_map,
                            &mut self.in_progress_terrain,
                        );
                        proof {
                            self.lod_map.lemma_same_elsewhere_chain(recorded.lod_map, before.lod_map, *block_position);
                        }
                        None
                    },
                }
            },
        }
    }

    /// Record that an owner no longer asks for a block, and where that
    /// changes the greatest demand for the block, take what is loaded for
    /// the block out of the store.
    pub fn unload(&mut self, physics: &mut Physics, block_position: &BlockPosition, owner: OwnerId)
        requires
            old(self).wf(),
        ensures
            unloads(*old(self), *old(physics), *final(self), *final(physics), *block_position, owner),
    {
        let ghost before = *self;
        let ghost physics0 = *physics;
        let (_, mlod_change) = self.lod_map.remove(*block_position, owner);
        proof {
            old(self).lod_map.lemma_wf(*block_position);
            crate::lod::lemma_max_lod(self.lod_map.requests(*block_position));
            crate::lod::lemma_max_lod(old(self).lod_map.requests(*block_position));
        }
        let lod_change = match mlod_change {
            None => {
                proof {
                    assert forall|next: int| #[trigger]
                        consistent_parts(
                            before.terrain,
                            before.in_progress_terrain,
                            before.lod_map,
                            physics0,
                            next,
                        ) implies consistent_parts(
                        self.terrain,
                        self.in_progress_terrain,
                        self.lod_map,
                        *physics,
                        next,
                    ) by {
                        lemma_same_loaded(
                            before.terrain,
                            before.in_progress_terrain,
                            before.lod_map,
                            self.in_progress_terrain,
                            self.lod_map,
                            physics0,
                            *block_position,
                            next,
                        );
                    }
                }
                return ;
            },
            Some(c) => c,
        };
        uninstall(&self.terrain, &mut self.in_progress_terrain, physics, block_position, lod_change.loaded);
        if lod_change.desired.is_some() {
            self.lod_map.clear_loaded(*block_position);
        }
        proof {
            assert forall|next: int| #[trigger]
                consistent_parts(
                    before.terrain,
                    before.in_progress_terrain,
                    before.lod_map,
                    physics0,
                    next,
                ) implies consistent_parts(
                self.terrain,
                self.in_progress_terrain,
                self.lod_map,
                *physics,
                next,
            ) by {
                lemma_uninstalled(
                    before.terrain,
                    before.in_progress_terrain,
                    before.lod_map,
                    physics0,
                    self.in_progress_terrain,
                    self.lod_map,
                    *physics,
                    *block_position,
                    next,
                );
                lemma_sound_same(
                    |p: BlockPosition, l: LODIndex| self.terrain.cached(p, l),
                    |p: BlockPosition| if p == *block_position { None } else { self.lod_map.loaded(p) },
                    |p: BlockPosition| self.in_progress_terrain.placeholder(p),
                    |p: BlockPosition, l: LODIndex| self.terrain.cached(p, l),
                    |p: BlockPosition| self.lod_map.loaded(p),
                    |p: BlockPosition| self.in_progress_terrain.placeholder(p),
                    physics.terrain(),
                    physics.misc(),
                    next,
                );
            }
        }
    }
}

/// What loading does: the request is recorded, and where that changes the
/// greatest demand for the block, what the owner asks for is installed at
/// once or asked of the generator. A placeholder is installed at once,
/// under the next entity, and so is a mesh that is kept; what was loaded
/// for the block before is taken out of the store. A mesh that is not kept
/// is asked for. What is installed at once is installed as a mesh that
/// arrives is: not where another owner demands more, since it would be
/// stale at once, nor where it is loaded already. Whatever happens, a
/// loader, a store and an allocator that belonged together go on doing so.
pub open spec fn loads(
    before: TerrainGameLoader,
    physics_before: Physics,
    ids_before: IdAllocator,
    after: TerrainGameLoader,
    physics_after: Physics,
    ids_after: IdAllocator,
    position: BlockPosition,
    new_lod: LOD,
    owner: OwnerId,
    request: Option<ServerToGaia>,
) -> bool {
    &&& after.wf()
    &&& after.terrain == before.terrain
    &&& after.lod_map.requests(position) == with_request(
            before.lod_map.requests(position),
            owner,
            new_lod,
        )
    &&& after.lod_map.reported(position) == (match change_between(
        before.lod_map.desired(position),
        after.lod_map.desired(position),
        before.lod_map.loaded(position),
    ) {
        Some(LodChange { desired: Some(demand), loaded: _ }) => before.lod_map.reported(position).insert(demand),
        Some(LodChange { desired: None, loaded: _ }) => Set::empty(),
        None => before.lod_map.reported(position),
    })
    &&& after.lod_map.same_elsewhere(before.lod_map, position)
    &&& after.in_progress_terrain.same_elsewhere(before.in_progress_terrain, position)
    &&& match change_between(
            before.lod_map.desired(position),
            after.lod_map.desired(position),
            before.lod_map.loaded(position),
        ) {
            // Maximum LOD is unchanged.
            None => {
                &&& request is None
                &&& loaded_stays(before, after, physics_before, physics_after, position)
                &&& ids_after.spec_next() == ids_before.spec_next()
            },
            Some(change) => match new_lod {
                LOD::Placeholder => {
                    &&& request is None
                    &&& if change.desired == Some(LOD::Placeholder) && change.loaded != Some(LOD::Placeholder) {
                        &&& after.lod_map.loaded(position) == Some(LOD::Placeholder)
                        &&& physics_after.terrain() == terrain_uninstalled(
                            physics_before.terrain(),
                            before.terrain,
                            position,
                            change.loaded,
                        )
                        &&& physics_after.misc() == misc_with_placeholder(
                            physics_before.misc(),
                            before.in_progress_terrain.placeholder(position),
                            position,
                            ids_before.spec_next(),
                        )
                        &&& after.in_progress_terrain.placeholder(position) == (match before.in_progress_terrain.placeholder(
                            position,
                        ) {
                            Some(id) => Some(id),
                            None => Some(EntityId(ids_before.spec_next() as u32)),
                        })
                        &&& ids_after.spec_next() == ids_before.spec_next() + (if before.in_progress_terrain.placeholder(
                            position,
                        ) is None {
                            1int
                        } else {
                            0int
                        })
                    } else {
                        &&& loaded_stays(before, after, physics_before, physics_after, position)
                        &&& ids_after.spec_next() == ids_before.spec_next()
                    }
                },
                LOD::LodIndex(lod) => {
                    &&& ids_after.spec_next() == ids_before.spec_next()
                    &&& match before.terrain.cached(position, lod) {
                        None => {
                            &&& request == Some(ServerToGaia::Load(position, lod, LoadReason::Local(owner)))
                            &&& loaded_stays(before, after, physics_before, physics_after, position)
                        },
                        Some(block) => {
                            &&& request is None
                            &&& if change.desired == Some(LOD::LodIndex(lod)) && change.loaded != Some(
                                LOD::LodIndex(lod),
                            ) {
                                &&& after.lod_map.loaded(position) == Some(LOD::LodIndex(lod))
                                &&& physics_after.terrain() == with_bounds(
                                    terrain_uninstalled(
                                        physics_before.terrain(),
                                        before.terrain,
                                        position,
                                        change.loaded,
                                    ),
                                    block.bounds,
                                )
                                &&& physics_after.misc() == misc_uninstalled(
                                    physics_before.misc(),
                                    before.in_progress_terrain,
                                    position,
                                    change.loaded,
                                )
                                &&& after.in_progress_terrain.placeholder(position) == placeholder_uninstalled(
                                    before.in_progress_terrain,
                                    position,
                                    change.loaded,
                                )
                            } else {
                                loaded_stays(before, after, physics_before, physics_after, position)
                            }
                        },
                    }
                },
            },
        }
    &&& consistent(before, physics_before, ids_before) ==> consistent(
            after,
            physics_after,
            ids_after,
        )
}

/// What unloading does: the owner's request is withdrawn, and where that
/// changes the greatest demand for the block, what is loaded for the block
/// is taken out of the store, and nothing is held to be loaded for it any
/// more. Whatever happens, the parts of a loader and a store that belonged
/// together go on doing so.
pub open spec fn unloads(
    before: TerrainGameLoader,
    physics_before: Physics,
    after: TerrainGameLoader,
    physics_after: Physics,
    position: BlockPosition,
    owner: OwnerId,
) -> bool {
    &&& after.wf()
    &&& after.terrain == before.terrain
    &&& after.lod_map.requests(position) == without_request(
            before.lod_map.requests(position),
            owner,
        )
    &&& after.lod_map.reported(position) == (match change_between(
        before.lod_map.desired(position),
        after.lod_map.desired(position),
        before.lod_map.loaded(position),
    ) {
        Some(LodChange { desired: Some(demand), loaded: _ }) => before.lod_map.reported(position).insert(demand),
        Some(LodChange { desired: None, loaded: _ }) => Set::empty(),
        None => before.lod_map.reported(position),
    })
    &&& after.lod_map.same_elsewhere(before.lod_map, position)
    &&& after.in_progress_terrain.same_elsewhere(before.in_progress_terrain, position)
    &&& match change_between(
            before.lod_map.desired(position),
            after.lod_map.desired(position),
            before.lod_map.loaded(position),
        ) {
            None => loaded_stays(before, after, physics_before, physics_after, position),
            Some(change) => {
                &&& after.lod_map.loaded(position) is None
                &&& physics_after.terrain() == terrain_uninstalled(
                    physics_before.terrain(),
                    before.terrain,
                    position,
                    change.loaded,
                )
                &&& physics_after.misc() == misc_uninstalled(
                    physics_before.misc(),
                    before.in_progress_terrain,
                    position,
                    change.loaded,
                )
                &&& after.in_progress_terrain.placeholder(position) == placeholder_uninstalled(
                    before.in_progress_terrain,
                    position,
                    change.loaded,
                )
            },
        }
    &&& forall|next: int|
            #[trigger] consistent_parts(
                before.terrain,
                before.in_progress_terrain,
                before.lod_map,
                physics_before,
                next,
            ) ==> consistent_parts(
                after.terrain,
                after.in_progress_terrain,
                after.lod_map,
                physics_after,
                next,
            )
}

/// Whether nothing has changed of what is loaded for a block: neither what
/// the map holds to be loaded, nor the placeholder, nor the store.
pub open spec fn loaded_stays(
    before: TerrainGameLoader,
    after: TerrainGameLoader,
    physics_before: Physics,
    physics_after: Physics,
    position: BlockPosition,
) -> bool {
    &&& after.lod_map.loaded(position) == before.lod_map.loaded(position)
    &&& after.in_progress_terrain.placeholder(position) == before.in_progress_terrain.placeholder(position)
    &&& physics_after.terrain() == physics_before.terrain()
    &&& physics_after.misc() == physics_before.misc()
}

/// A loader that keeps no mesh and has no placeholder belongs together
/// with an empty store, whatever has been allocated.
pub proof fn lemma_empty_consistent(loader: TerrainGameLoader, physics: Physics, id_allocator: IdAllocator)
    requires
        forall|p: BlockPosition| #[trigger] loader.in_progress_terrain.placeholder(p) is None,
        forall|p: BlockPosition, l: LODIndex| #[trigger] loader.terrain.cached(p, l) is None,
        physics.terrain() == Map::<EntityId, Aabb3>::empty(),
        physics.misc() == Map::<EntityId, Aabb3>::empty(),
    ensures
        consistent(loader, physics, id_allocator),
{
    let cache = |p: BlockPosition, l: LODIndex| loader.terrain.cached(p, l);
    let placeholder = |p: BlockPosition| loader.in_progress_terrain.placeholder(p);
    assert forall|p: BlockPosition, l: LODIndex, id: EntityId| !#[trigger] crate::invariants::holds(cache, p, l, id) by {
        assert(loader.terrain.cached(p, l) is None);
    }
    assert forall|p: BlockPosition| (#[trigger] placeholder(p)) is None by {
        assert(loader.in_progress_terrain.placeholder(p) is None);
    }
    assert forall|p: BlockPosition, l: LODIndex| (#[trigger] cache(p, l)) is None by {
        assert(loader.terrain.cached(p, l) is None);
    }
}

/// Installing the mesh that is kept for a block at a level of detail and
/// taking it out again leaves the terrain colliders exactly as they were,
/// where that level of detail was not held to be loaded for the block.
pub proof fn lemma_mesh_round_trip(
    loader: TerrainGameLoader,
    physics: Physics,
    id_allocator: IdAllocator,
    position: BlockPosition,
    lod: LODIndex,
)
    requires
        consistent(loader, physics, id_allocator),
        loader.lod_map.loaded(position) != Some(LOD::LodIndex(lod)),
        loader.terrain.cached(position, lod) is Some,
    ensures
        terrain_uninstalled(
            with_bounds(physics.terrain(), loader.terrain.cached(position, lod)->Some_0.bounds),
            loader.terrain,
            position,
            Some(LOD::LodIndex(lod)),
        ) == physics.terrain(),
{
    let mesh = loader.terrain.cached(position, lod)->Some_0;
    let cache = |p: BlockPosition, l: LODIndex| loader.terrain.cached(p, l);
    assert(cache(position, lod) == Some(mesh));
    assert forall|i: int| 0 <= i < mesh.ids.len() implies !physics.terrain().contains_key(#[trigger] mesh.ids[i]) by {
        assert(mesh.ids.contains(mesh.ids[i]));
        assert(crate::invariants::holds(cache, position, lod, mesh.ids[i]));
    }
    lemma_install_uninstall(physics.terrain(), mesh);
}

/// Giving a block that has none a placeholder under the next entity and
/// taking the placeholder away again leaves the other colliders exactly as
/// they were.
pub proof fn lemma_placeholder_round_trip(
    loader: TerrainGameLoader,
    physics: Physics,
    id_allocator: IdAllocator,
    position: BlockPosition,
)
    requires
        consistent(loader, physics, id_allocator),
        id_allocator.remaining() >= 1,
    ensures
        misc_with_placeholder(physics.misc(), None, position, id_allocator.spec_next()).remove(
            EntityId(id_allocator.spec_next() as u32),
        ) == physics.misc(),
{
    id_allocator.lemma_next_in_range();
    let id = EntityId(id_allocator.spec_next() as u32);
    assert(!physics.misc().contains_key(id));
    assert(physics.misc().insert(id, spec_block_bounds(position)).remove(id) =~= physics.misc());
}

/// Loading twice is loading once: when an owner asks again for what it has
/// just asked for, nothing is asked of the generator, and nothing changes
/// of what is requested or loaded for the block, nor of the store.
pub proof fn lemma_load_twice(
    before: TerrainGameLoader,
    physics_before: Physics,
    ids_before: IdAllocator,
    once: TerrainGameLoader,
    physics_once: Physics,
    ids_once: IdAllocator,
    twice: TerrainGameLoader,
    physics_twice: Physics,
    ids_twice: IdAllocator,
    position: BlockPosition,
    lod: LOD,
    owner: OwnerId,
    first: Option<ServerToGaia>,
    second: Option<ServerToGaia>,
)
    requires
        before.wf(),
        loads(before, physics_before, ids_before, once, physics_once, ids_once, position, lod, owner, first),
        loads(once, physics_once, ids_once, twice, physics_twice, ids_twice, position, lod, owner, second),
    ensures
        second is None,
        twice.lod_map.requests(position) == once.lod_map.requests(position),
        loaded_stays(once, twice, physics_once, physics_twice, position),
        ids_twice.spec_next() == ids_once.spec_next(),
{
    before.lod_map.lemma_wf(position);
    crate::lod::lemma_insert_twice(before.lod_map.requests(position), owner, lod, once.lod_map.loaded(position));
}

/// Unloading twice is unloading once: the second time nothing changes of
/// what is requested or loaded for the block, nor of the store.
pub proof fn lemma_unload_twice(
    before: TerrainGameLoader,
    physics_before: Physics,
    once: TerrainGameLoader,
    physics_once: Physics,
    twice: TerrainGameLoader,
    physics_twice: Physics,
    position: BlockPosition,
    owner: OwnerId,
)
    requires
        before.wf(),
        unloads(before, physics_before, once, physics_once, position, owner),
        unloads(once, physics_once, twice, physics_twice, position, owner),
    ensures
        twice.lod_map.requests(position) == once.lod_map.requests(position),
        loaded_stays(once, twice, physics_once, physics_twice, position),
{
    before.lod_map.lemma_wf(position);
    crate::lod::lemma_remove_twice(before.lod_map.requests(position), owner, once.lod_map.loaded(position));
}

/// Loading and then unloading a block leaves the colliders exactly as they
/// were before the load, where the load is complete when the unloading
/// begins and nobody else claims the block. This is the case of a load that
/// is complete at once: that of a placeholder, or of a mesh that is kept.
pub proof fn lemma_load_unload_round_trip(
    before: TerrainGameLoader,
    physics_before: Physics,
    ids_before: IdAllocator,
    loaded: TerrainGameLoader,
    physics_loaded: Physics,
    ids_loaded: IdAllocator,
    after: TerrainGameLoader,
    physics_after: Physics,
    position: BlockPosition,
    lod: LOD,
    owner: OwnerId,
)
    requires
        before.wf(),
        consistent(before, physics_before, ids_before),
        ids_before.remaining() >= 1,
        before.lod_map.requests(position).len() == 0,
        loads(before, physics_before, ids_before, loaded, physics_loaded, ids_loaded, position, lod, owner, None),
        unloads(loaded, physics_loaded, after, physics_after, position, owner),
    ensures
        physics_after.terrain() == physics_before.terrain(),
        physics_after.misc() == physics_before.misc(),
        after.lod_map.requests(position) == before.lod_map.requests(position),
        after.lod_map.loaded(position) == before.lod_map.loaded(position),
        after.in_progress_terrain.placeholder(position) == before.in_progress_terrain.placeholder(position),
{
    let none = before.lod_map.requests(position);
    let one = loaded.lod_map.requests(position);
    before.lod_map.lemma_wf(position);
    assert(none =~= Seq::empty());
    assert(one =~= seq![(owner, lod)]);
    reveal_with_fuel(crate::lod::max_lod, 3);
    reveal_with_fuel(crate::lod::position_of, 3);
    assert(one.drop_last() =~= Seq::empty());
    assert(crate::lod::max_lod(one) == Some(lod));
    assert(crate::lod::position_of(one, owner) == 0);
    assert(without_request(one, owner) =~= Seq::empty());
    let placeholder = |p: BlockPosition| before.in_progress_terrain.placeholder(p);
    assert(placeholder(position) is Some ==> before.lod_map.loaded(position) == Some(LOD::Placeholder));
    match lod {
        LOD::Placeholder => {
            lemma_placeholder_round_trip(before, physics_before, ids_before, position);
        },
        LOD::LodIndex(index) => {
            lemma_mesh_round_trip(before, physics_before, ids_before, position, index);
        },
    }
}

/// Where what is loaded stays as it is everywhere, the parts go on
/// belonging together.
proof fn lemma_same_loaded(
    terrain: Terrain,
    in_progress: InProgressTerrain,
    lod_map: LODMap,
    in_progress2: InProgressTerrain,
    lod_map2: LODMap,
    physics: Physics,
    position: BlockPosition,
    next: int,
)
    requires
        consistent_parts(terrain, in_progress, lod_map, physics, next),
        lod_map2.same_elsewhere(lod_map, position),
        lod_map2.loaded(position) == lod_map.loaded(position),
        in_progress2.same_elsewhere(in_progress, position),
        in_progress2.placeholder(position) == in_progress.placeholder(position),
    ensures
        consistent_parts(terrain, in_progress2, lod_map2, physics, next),
{
    assert forall|p: BlockPosition| #[trigger] lod_map2.loaded(p) == lod_map.loaded(p) by {
        if p != position {
            assert(lod_map2.requests(p) == lod_map.requests(p));
        }
    }
    assert forall|p: BlockPosition| #[trigger] in_progress2.placeholder(p) == in_progress.placeholder(p) by {}
    lemma_sound_same(
        |p: BlockPosition, l: LODIndex| terrain.cached(p, l),
        |p: BlockPosition| lod_map.loaded(p),
        |p: BlockPosition| in_progress.placeholder(p),
        |p: BlockPosition, l: LODIndex| terrain.cached(p, l),
        |p: BlockPosition| lod_map2.loaded(p),
        |p: BlockPosition| in_progress2.placeholder(p),
        physics.terrain(),
        physics.misc(),
        next,
    );
}

/// Once what was loaded for a block has been taken out of the store, the
/// parts belong together with nothing held to be loaded for the block,
/// whatever the map holds to be loaded there by now.
proof fn lemma_uninstalled(
    terrain: Terrain,
    in_progress: InProgressTerrain,
    lod_map: LODMap,
    physics: Physics,
    in_progress2: InProgressTerrain,
    lod_map2: LODMap,
    physics2: Physics,
    position: BlockPosition,
    next: int,
)
    requires
        consistent_parts(terrain, in_progress, lod_map, physics, next),
        lod_map2.same_elsewhere(lod_map, position),
        in_progress2.same_elsewhere(in_progress, position),
        in_progress2.placeholder(position) == placeholder_uninstalled(in_progress, position, lod_map.loaded(position)),
        physics2.terrain() == terrain_uninstalled(physics.terrain(), terrain, position, lod_map.loaded(position)),
        physics2.misc() == misc_uninstalled(physics.misc(), in_progress, position, lod_map.loaded(position)),
    ensures
        in_progress2.placeholder(position) is None,
        sound(
            |p: BlockPosition, l: LODIndex| terrain.cached(p, l),
            |p: BlockPosition| if p == position { None } else { lod_map2.loaded(p) },
            |p: BlockPosition| in_progress2.placeholder(p),
            physics2.terrain(),
            physics2.misc(),
            next,
        ),
{
    let loaded = |p: BlockPosition| lod_map.loaded(p);
    let placeholder = |p: BlockPosition| in_progress.placeholder(p);
    assert(placeholder(position) is Some ==> loaded(position) == Some(LOD::Placeholder));
    let loaded2 = |p: BlockPosition| if p == position { None } else { lod_map2.loaded(p) };
    assert forall|q: BlockPosition| q != position implies #[trigger] loaded2(q) == loaded(q) by {
        assert(lod_map2.requests(q) == lod_map.requests(q));
    }
    lemma_sound_uninstalled(
        |p: BlockPosition, l: LODIndex| terrain.cached(p, l),
        loaded,
        placeholder,
        physics.terrain(),
        physics.misc(),
        next,
        position,
        loaded2,
        |p: BlockPosition| in_progress2.placeholder(p),
        physics2.terrain(),
        physics2.misc(),
    );
}

} // verus!

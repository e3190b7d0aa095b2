//! What ties the terrain loader, the collider store and the allocator of
//! entities together, and why loading and unloading keep it so.
//!
//! The loader, the store and the allocator are separate values, so that
//! each can be locked on its own. What holds of them together is stated
//! here over what can be read of them: which mesh is kept for a block at a
//! level of detail, what is held to be loaded for a block, which
//! placeholder a block has, and which colliders are in the store.

use crate::block_position::BlockPosition;
use crate::entity::EntityId;
use crate::in_progress_terrain::spec_block_bounds;
use crate::lod::{LODIndex, LOD};
use crate::terrain_block::{Aabb3, TerrainBlockView};
use crate::terrain_game_loader::{lemma_with_bounds, lemma_without_ids, with_bounds, without_ids};
use vstd::prelude::*;

verus! {

/// Whether the mesh that is kept for a block at a level of detail has a
/// triangle with the given entity.
pub open spec fn holds(
    cache: spec_fn(BlockPosition, LODIndex) -> Option<TerrainBlockView>,
    p: BlockPosition,
    l: LODIndex,
    id: EntityId,
) -> bool {
    cache(p, l) matches Some(mesh) && mesh.ids.contains(id)
}

/// What holds of a loader, a store and an allocator that belong together:
///
/// - every mesh that is kept is well formed, the entities of its triangles
///   have been allocated, and no entity belongs to two meshes;
/// - a block has a placeholder only while a placeholder is held to be
///   loaded for it;
/// - every entity in the store has been allocated;
/// - no triangle of a mesh that is not held to be loaded is in the store.
pub open spec fn sound(
    cache: spec_fn(BlockPosition, LODIndex) -> Option<TerrainBlockView>,
    loaded: spec_fn(BlockPosition) -> Option<LOD>,
    placeholder: spec_fn(BlockPosition) -> Option<EntityId>,
    terrain: Map<EntityId, Aabb3>,
    misc: Map<EntityId, Aabb3>,
    next: int,
) -> bool {
    &&& forall|p: BlockPosition, l: LODIndex| (#[trigger] cache(p, l)) matches Some(mesh) ==> mesh.wf()
    &&& forall|p: BlockPosition, l: LODIndex, id: EntityId| #[trigger] holds(cache, p, l, id) ==> id.0 < next
    &&& forall|p: BlockPosition, l: LODIndex, q: BlockPosition, k: LODIndex, id: EntityId|
        #[trigger] holds(cache, p, l, id) && #[trigger] holds(cache, q, k, id) ==> p == q && l == k
    &&& forall|p: BlockPosition| (#[trigger] placeholder(p)) is Some ==> loaded(p) == Some(LOD::Placeholder)
    &&& forall|id: EntityId| #[trigger] misc.contains_key(id) ==> id.0 < next
    &&& forall|id: EntityId| #[trigger] terrain.contains_key(id) ==> id.0 < next
    &&& forall|p: BlockPosition, l: LODIndex, id: EntityId|
        #[trigger] holds(cache, p, l, id) && loaded(p) != Some(LOD::LodIndex(l)) ==> !terrain.contains_key(id)
}

/// Soundness is a matter of what can be read: what reads the same is sound
/// alike.
pub proof fn lemma_sound_same(
    cache: spec_fn(BlockPosition, LODIndex) -> Option<TerrainBlockView>,
    loaded: spec_fn(BlockPosition) -> Option<LOD>,
    placeholder: spec_fn(BlockPosition) -> Option<EntityId>,
    cache2: spec_fn(BlockPosition, LODIndex) -> Option<TerrainBlockView>,
    loaded2: spec_fn(BlockPosition) -> Option<LOD>,
    placeholder2: spec_fn(BlockPosition) -> Option<EntityId>,
    terrain: Map<EntityId, Aabb3>,
    misc: Map<EntityId, Aabb3>,
    next: int,
)
    requires
        sound(cache, loaded, placeholder, terrain, misc, next),
        forall|p: BlockPosition, l: LODIndex| #[trigger] cache2(p, l) == cache(p, l),
        forall|p: BlockPosition| #[trigger] loaded2(p) == loaded(p),
        forall|p: BlockPosition| #[trigger] placeholder2(p) == placeholder(p),
    ensures
        sound(cache2, loaded2, placeholder2, terrain, misc, next),
{
    assert forall|p: BlockPosition, l: LODIndex, id: EntityId| #[trigger] holds(cache2, p, l, id) implies holds(
        cache,
        p,
        l,
        id,
    ) by {
        assert(cache2(p, l) == cache(p, l));
    }
    assert forall|p: BlockPosition| (#[trigger] placeholder2(p)) is Some implies loaded2(p) == Some(LOD::Placeholder) by {
        assert(placeholder2(p) == placeholder(p));
        assert(loaded2(p) == loaded(p));
    }
    assert forall|p: BlockPosition, l: LODIndex, id: EntityId|
        #[trigger] holds(cache2, p, l, id) && loaded2(p) != Some(LOD::LodIndex(l)) implies !terrain.contains_key(id) by {
        assert(holds(cache, p, l, id));
        assert(loaded2(p) == loaded(p));
    }
    assert forall|p: BlockPosition, l: LODIndex| (#[trigger] cache2(p, l)) is Some implies cache2(p, l)->Some_0.wf() by {
        assert(cache2(p, l) == cache(p, l));
    }
}

/// Taking what is loaded for a block out of the store, and holding nothing
/// to be loaded for the block any more, keeps things sound.
pub proof fn lemma_sound_uninstalled(
    cache: spec_fn(BlockPosition, LODIndex) -> Option<TerrainBlockView>,
    loaded: spec_fn(BlockPosition) -> Option<LOD>,
    placeholder: spec_fn(BlockPosition) -> Option<EntityId>,
    terrain: Map<EntityId, Aabb3>,
    misc: Map<EntityId, Aabb3>,
    next: int,
    position: BlockPosition,
    loaded2: spec_fn(BlockPosition) -> Option<LOD>,
    placeholder2: spec_fn(BlockPosition) -> Option<EntityId>,
    terrain2: Map<EntityId, Aabb3>,
    misc2: Map<EntityId, Aabb3>,
)
    requires
        sound(cache, loaded, placeholder, terrain, misc, next),
        loaded2(position) is None,
        forall|q: BlockPosition| q != position ==> #[trigger] loaded2(q) == loaded(q),
        placeholder2(position) is None,
        forall|q: BlockPosition| q != position ==> #[trigger] placeholder2(q) == placeholder(q),
        terrain2 == (match loaded(position) {
            Some(LOD::LodIndex(lod)) => match cache(position, lod) {
                Some(mesh) => without_ids(terrain, mesh.ids),
                None => terrain,
            },
            _ => terrain,
        }),
        misc2 == (match (loaded(position), placeholder(position)) {
            (Some(LOD::Placeholder), Some(id)) => misc.remove(id),
            _ => misc,
        }),
    ensures
        sound(cache, loaded2, placeholder2, terrain2, misc2, next),
{
    assert forall|id: EntityId| #[trigger] terrain2.contains_key(id) implies terrain.contains_key(id) by {
        match loaded(position) {
            Some(LOD::LodIndex(lod)) => match cache(position, lod) {
                Some(mesh) => {
                    lemma_without_ids(terrain, mesh.ids, id);
                },
                None => {},
            },
            _ => {},
        }
    }
    assert forall|p: BlockPosition, l: LODIndex, id: EntityId|
        #[trigger] holds(cache, p, l, id) && loaded2(p) != Some(LOD::LodIndex(l)) implies !terrain2.contains_key(id) by {
        if p != position {
            assert(loaded2(p) == loaded(p));
        } else if loaded(p) == Some(LOD::LodIndex(l)) {
            lemma_without_ids(terrain, cache(p, l)->Some_0.ids, id);
        }
    }
    assert forall|p: BlockPosition| (#[trigger] placeholder2(p)) is Some implies loaded2(p) == Some(LOD::Placeholder) by {
        if p != position {
            assert(placeholder2(p) == placeholder(p));
            assert(loaded2(p) == loaded(p));
        }
    }
}

/// Filing the triangles of the mesh that is kept for a block at a level of
/// detail, and holding that level of detail to be loaded for the block,
/// keeps things sound where nothing was held to be loaded for the block.
pub proof fn lemma_sound_installed(
    cache: spec_fn(BlockPosition, LODIndex) -> Option<TerrainBlockView>,
    loaded: spec_fn(BlockPosition) -> Option<LOD>,
    placeholder: spec_fn(BlockPosition) -> Option<EntityId>,
    terrain: Map<EntityId, Aabb3>,
    misc: Map<EntityId, Aabb3>,
    next: int,
    position: BlockPosition,
    lod: LODIndex,
    loaded2: spec_fn(BlockPosition) -> Option<LOD>,
    terrain2: Map<EntityId, Aabb3>,
)
    requires
        sound(cache, loaded, placeholder, terrain, misc, next),
        loaded(position) is None,
        cache(position, lod) is Some,
        loaded2(position) == Some(LOD::LodIndex(lod)),
        forall|q: BlockPosition| q != position ==> #[trigger] loaded2(q) == loaded(q),
        terrain2 == with_bounds(terrain, cache(position, lod)->Some_0.bounds),
    ensures
        sound(cache, loaded2, placeholder, terrain2, misc, next),
{
    let mesh = cache(position, lod)->Some_0;
    assert(mesh.wf());
    assert forall|id: EntityId| #[trigger] terrain2.contains_key(id) implies terrain.contains_key(id) || holds(
        cache,
        position,
        lod,
        id,
    ) by {
        lemma_with_bounds(terrain, mesh.bounds, id);
        if !terrain.contains_key(id) {
            let i = choose|i: int| 0 <= i < mesh.bounds.len() && (#[trigger] mesh.bounds[i]).0 == id;
            assert(mesh.ids[i] == id);
        }
    }
    assert forall|p: BlockPosition, l: LODIndex, id: EntityId|
        #[trigger] holds(cache, p, l, id) && loaded2(p) != Some(LOD::LodIndex(l)) implies !terrain2.contains_key(id) by {
        if p != position {
            assert(loaded2(p) == loaded(p));
        }
        if terrain2.contains_key(id) {
            assert(terrain.contains_key(id) || holds(cache, position, lod, id));
        }
    }
    assert forall|p: BlockPosition| (#[trigger] placeholder(p)) is Some implies loaded2(p) == Some(LOD::Placeholder) by {
        if p != position {
            assert(loaded2(p) == loaded(p));
        }
    }
}

/// Giving a block a placeholder under the next entity, and holding a
/// placeholder to be loaded for the block, keeps things sound where nothing
/// was held to be loaded for the block.
pub proof fn lemma_sound_placeholder(
    cache: spec_fn(BlockPosition, LODIndex) -> Option<TerrainBlockView>,
    loaded: spec_fn(BlockPosition) -> Option<LOD>,
    placeholder: spec_fn(BlockPosition) -> Option<EntityId>,
    terrain: Map<EntityId, Aabb3>,
    misc: Map<EntityId, Aabb3>,
    next: int,
    position: BlockPosition,
    loaded2: spec_fn(BlockPosition) -> Option<LOD>,
    placeholder2: spec_fn(BlockPosition) -> Option<EntityId>,
    misc2: Map<EntityId, Aabb3>,
)
    requires
        sound(cache, loaded, placeholder, terrain, misc, next),
        0 <= next < u32::MAX,
        loaded(position) is None,
        loaded2(position) == Some(LOD::Placeholder),
        forall|q: BlockPosition| q != position ==> #[trigger] loaded2(q) == loaded(q),
        placeholder2(position) == Some(EntityId(next as u32)),
        forall|q: BlockPosition| q != position ==> #[trigger] placeholder2(q) == placeholder(q),
        misc2 == misc.insert(EntityId(next as u32), spec_block_bounds(position)),
    ensures
        placeholder(position) is None,
        sound(cache, loaded2, placeholder2, terrain, misc2, next + 1),
{
    assert forall|p: BlockPosition, l: LODIndex, id: EntityId|
        #[trigger] holds(cache, p, l, id) && loaded2(p) != Some(LOD::LodIndex(l)) implies !terrain.contains_key(id) by {
        if p != position {
            assert(loaded2(p) == loaded(p));
        }
    }
    assert forall|p: BlockPosition| (#[trigger] placeholder2(p)) is Some implies loaded2(p) == Some(LOD::Placeholder) by {
        if p != position {
            assert(placeholder2(p) == placeholder(p));
            assert(loaded2(p) == loaded(p));
        }
    }
}

/// Keeping a newly generated mesh, the entities of whose triangles are
/// numbered from the next entity on, keeps things sound.
pub proof fn lemma_sound_generated(
    cache: spec_fn(BlockPosition, LODIndex) -> Option<TerrainBlockView>,
    loaded: spec_fn(BlockPosition) -> Option<LOD>,
    placeholder: spec_fn(BlockPosition) -> Option<EntityId>,
    terrain: Map<EntityId, Aabb3>,
    misc: Map<EntityId, Aabb3>,
    next: int,
    position: BlockPosition,
    lod: LODIndex,
    cache2: spec_fn(BlockPosition, LODIndex) -> Option<TerrainBlockView>,
)
    requires
        sound(cache, loaded, placeholder, terrain, misc, next),
        cache(position, lod) is None,
        cache2(position, lod) matches Some(mesh) && mesh.wf() && next + mesh.ids.len() <= u32::MAX && forall|i: int|
            0 <= i < mesh.ids.len() ==> (#[trigger] mesh.ids[i]) == EntityId((next + i) as u32),
        forall|q: BlockPosition, k: LODIndex| q != position || k != lod ==> #[trigger] cache2(q, k) == cache(q, k),
        0 <= next,
    ensures
        sound(cache2, loaded, placeholder, terrain, misc, next + cache2(position, lod)->Some_0.ids.len()),
{
    let mesh = cache2(position, lod)->Some_0;
    let later = next + mesh.ids.len();
    assert forall|p: BlockPosition, l: LODIndex, id: EntityId| #[trigger] holds(cache2, p, l, id) implies (if p
        == position && l == lod {
        next <= id.0 < later
    } else {
        holds(cache, p, l, id) && id.0 < next
    }) by {
        if p == position && l == lod {
            let i = choose|i: int| 0 <= i < mesh.ids.len() && mesh.ids[i] == id;
            assert(mesh.ids[i] == EntityId((next + i) as u32));
        } else {
            assert(cache2(p, l) == cache(p, l));
        }
    }
    assert forall|p: BlockPosition, l: LODIndex| (#[trigger] cache2(p, l)) is Some implies cache2(p, l)->Some_0.wf() by {
        if p != position || l != lod {
            assert(cache2(p, l) == cache(p, l));
        }
    }
}

/// Filing a box under the next entity among the colliders that are not
/// terrain keeps things sound.
pub proof fn lemma_sound_misc_added(
    cache: spec_fn(BlockPosition, LODIndex) -> Option<TerrainBlockView>,
    loaded: spec_fn(BlockPosition) -> Option<LOD>,
    placeholder: spec_fn(BlockPosition) -> Option<EntityId>,
    terrain: Map<EntityId, Aabb3>,
    misc: Map<EntityId, Aabb3>,
    next: int,
    bounds: Aabb3,
)
    requires
        sound(cache, loaded, placeholder, terrain, misc, next),
        0 <= next < u32::MAX,
    ensures
        sound(cache, loaded, placeholder, terrain, misc.insert(EntityId(next as u32), bounds), next + 1),
{
}

} // verus!

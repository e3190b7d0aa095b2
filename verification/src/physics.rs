//! The store of colliders: for every entity that takes part in collisions,
//! the box that it occupies. Terrain triangles and other entities are kept
//! apart.

use crate::entity::EntityId;
use crate::terrain_block::Aabb3;
use std::collections::HashMap;
use vstd::prelude::*;

verus! {

broadcast use vstd::std_specs::hash::group_hash_axioms;

/// The store of colliders.
pub struct Physics {
    terrain: HashMap<u32, Aabb3>,
    misc: HashMap<u32, Aabb3>,
}

impl Physics {
    /// The boxes of the terrain triangles, by entity.
    pub closed spec fn terrain(self) -> Map<EntityId, Aabb3> {
        Map::new(|id: EntityId| self.terrain@.contains_key(id.0), |id: EntityId| self.terrain@[id.0])
    }

    /// The boxes of the entities that are not terrain triangles, by entity.
    pub closed spec fn misc(self) -> Map<EntityId, Aabb3> {
        Map::new(|id: EntityId| self.misc@.contains_key(id.0), |id: EntityId| self.misc@[id.0])
    }

    /// A store without colliders.
    pub fn new() -> (p: Physics)
        ensures
            p.terrain() == Map::<EntityId, Aabb3>::empty(),
            p.misc() == Map::<EntityId, Aabb3>::empty(),
    {
        let p = Physics { terrain: HashMap::new(), misc: HashMap::new() };
        assert(p.terrain() =~= Map::<EntityId, Aabb3>::empty());
        assert(p.misc() =~= Map::<EntityId, Aabb3>::empty());
        p
    }

    /// File a terrain triangle's box under its entity.
    pub fn insert_terrain(&mut self, id: EntityId, bounds: Aabb3)
        ensures
            final(self).terrain() == old(self).terrain().insert(id, bounds),
            final(self).misc() == old(self).misc(),
    {
        self.terrain.insert(id.0, bounds);
        assert(self.terrain() =~= old(self).terrain().insert(id, bounds));
    }

    /// Take a terrain triangle's box out of the store.
    pub fn remove_terrain(&mut self, id: EntityId)
        ensures
            final(self).terrain() == old(self).terrain().remove(id),
            final(self).misc() == old(self).misc(),
    {
        self.terrain.remove(&id.0);
        assert(self.terrain() =~= old(self).terrain().remove(id));
    }

    /// File the box of an entity that is not a terrain triangle.
    pub fn insert_misc(&mut self, id: EntityId, bounds: Aabb3)
        ensures
            final(self).misc() == old(self).misc().insert(id, bounds),
            final(self).terrain() == old(self).terrain(),
    {
        self.misc.insert(id.0, bounds);
        assert(self.misc() =~= old(self).misc().insert(id, bounds));
    }

    /// Take the box of an entity that is not a terrain triangle out of the
    /// store.
    pub fn remove_misc(&mut self, id: EntityId)
        ensures
            final(self).misc() == old(self).misc().remove(id),
            final(self).terrain() == old(self).terrain(),
    {
        self.misc.remove(&id.0);
        assert(self.misc() =~= old(self).misc().remove(id));
    }

    /// The box of an entity that is not a terrain triangle.
    pub fn get_bounds(&self, id: EntityId) -> (bounds: Option<Aabb3>)
        ensures
            bounds == (if self.misc().contains_key(id) {
                Some(self.misc()[id])
            } else {
                None
            }),
    {
        match self.misc.get(&id.0) {
            Some(bounds) => Some(*bounds),
            None => None,
        }
    }

    /// The box of a terrain triangle.
    pub fn get_terrain_bounds(&self, id: EntityId) -> (bounds: Option<Aabb3>)
        ensures
            bounds == (if self.terrain().contains_key(id) {
                Some(self.terrain()[id])
            } else {
                None
            }),
    {
        match self.terrain.get(&id.0) {
            Some(bounds) => Some(*bounds),
            None => None,
        }
    }

    /// The number of terrain triangles in the store.
    pub fn terrain_len(&self) -> (n: usize)
        ensures
            n == self.terrain().dom().len(),
    {
        proof {
            lemma_same_size(self.terrain@, self.terrain());
        }
        self.terrain.len()
    }
}

/// A map keyed by entities has as many keys as the map from which it is
/// made by wrapping every key.
proof fn lemma_same_size(raw: Map<u32, Aabb3>, wrapped: Map<EntityId, Aabb3>)
    requires
        raw.dom().finite(),
        wrapped.dom() =~= Set::new(|id: EntityId| raw.contains_key(id.0)),
    ensures
        wrapped.dom().finite(),
        wrapped.dom().len() == raw.dom().len(),
    decreases raw.dom().len(),
{
    if raw.dom().len() == 0 {
        assert(raw.dom() =~= Set::empty());
        assert(wrapped.dom() =~= Set::empty());
    } else {
        let k = raw.dom().choose();
        let smaller = raw.remove(k);
        let smaller_wrapped = wrapped.remove(EntityId(k));
        assert(smaller_wrapped.dom() =~= Set::new(|id: EntityId| smaller.contains_key(id.0)));
        lemma_same_size(smaller, smaller_wrapped);
        assert(wrapped.dom() =~= smaller_wrapped.dom().insert(EntityId(k)));
    }
}

} // verus!

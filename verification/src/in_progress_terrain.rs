//! Blocks that are held solid by a placeholder while they have no mesh.

use crate::block_position::BlockPosition;
use crate::entity::EntityId;
use crate::id_allocator::IdAllocator;
use crate::physics::Physics;
use crate::terrain_block::{Aabb3, Point3, BLOCK_WIDTH, FIXED_ONE};
use std::collections::HashMap;
use vstd::prelude::*;

verus! {

broadcast use vstd::std_specs::hash::group_hash_axioms;

/// The width of a block in fixed-point units.
pub const BLOCK_FIXED_WIDTH: i64 = 8192;

/// The box that a block occupies.
pub open spec fn spec_block_bounds(p: BlockPosition) -> Aabb3 {
    Aabb3 {
        min: Point3 {
            x: (p.x * BLOCK_WIDTH * FIXED_ONE) as i64,
            y: (p.y * BLOCK_WIDTH * FIXED_ONE) as i64,
            z: (p.z * BLOCK_WIDTH * FIXED_ONE) as i64,
        },
        max: Point3 {
            x: ((p.x + 1) * BLOCK_WIDTH * FIXED_ONE) as i64,
            y: ((p.y + 1) * BLOCK_WIDTH * FIXED_ONE) as i64,
            z: ((p.z + 1) * BLOCK_WIDTH * FIXED_ONE) as i64,
        },
    }
}

/// The box that a block occupies.
pub fn block_bounds(p: &BlockPosition) -> (b: Aabb3)
    ensures
        b == spec_block_bounds(*p),
{
    assert(BLOCK_FIXED_WIDTH == BLOCK_WIDTH * FIXED_ONE);
    Aabb3 {
        min: Point3 {
            x: p.x as i64 * BLOCK_FIXED_WIDTH,
            y: p.y as i64 * BLOCK_FIXED_WIDTH,
            z: p.z as i64 * BLOCK_FIXED_WIDTH,
        },
        max: Point3 {
            x: (p.x as i64 + 1) * BLOCK_FIXED_WIDTH,
            y: (p.y as i64 + 1) * BLOCK_FIXED_WIDTH,
            z: (p.z as i64 + 1) * BLOCK_FIXED_WIDTH,
        },
    }
}

/// For every block that is held by a placeholder, the entity that stands
/// for the placeholder among the colliders.
pub struct InProgressTerrain {
    blocks: HashMap<u128, EntityId>,
}

impl InProgressTerrain {
    /// The entity of the placeholder of a block, if the block has one.
    pub closed spec fn placeholder(self, p: BlockPosition) -> Option<EntityId> {
        if self.blocks@.contains_key(p.spec_key()) {
            Some(self.blocks@[p.spec_key()])
        } else {
            None
        }
    }

    /// Whether two sets of placeholders agree on every block but one.
    pub open spec fn same_elsewhere(self, other: InProgressTerrain, p: BlockPosition) -> bool {
        forall|q: BlockPosition| q != p ==> #[trigger] self.placeholder(q) == other.placeholder(q)
    }

    /// No block has a placeholder.
    pub fn new() -> (t: InProgressTerrain)
        ensures
            forall|p: BlockPosition| #[trigger] t.placeholder(p) is None,
    {
        InProgressTerrain { blocks: HashMap::new() }
    }

    /// The entity of the placeholder of a block, if the block has one.
    pub fn get(&self, block_position: &BlockPosition) -> (id: Option<EntityId>)
        ensures
            id == self.placeholder(*block_position),
    {
        let key = block_position.key();
        match self.blocks.get(&key) {
            Some(id) => Some(*id),
            None => None,
        }
    }

    /// Mark a block as in progress by making it solid. Returns whether the
    /// block was given a placeholder; one that has a placeholder already is
    /// left as it is.
    pub fn insert(&mut self, id_allocator: &mut IdAllocator, physics: &mut Physics, block_position: &BlockPosition) -> (inserted:
        bool)
        requires
            old(id_allocator).remaining() >= 1,
        ensures
            inserted == (old(self).placeholder(*block_position) is None),
            final(self).same_elsewhere(*old(self), *block_position),
            final(physics).terrain() == old(physics).terrain(),
            inserted ==> {
                &&& final(self).placeholder(*block_position) == Some(EntityId(old(id_allocator).spec_next() as u32))
                &&& final(id_allocator).spec_next() == old(id_allocator).spec_next() + 1
                &&& final(physics).misc() == old(physics).misc().insert(
                    EntityId(old(id_allocator).spec_next() as u32),
                    spec_block_bounds(*block_position),
                )
            },
            !inserted ==> {
                &&& final(self).placeholder(*block_position) == old(self).placeholder(*block_position)
                &&& final(id_allocator).spec_next() == old(id_allocator).spec_next()
                &&& final(physics).misc() == old(physics).misc()
            },
    {
        let key = block_position.key();
        let ghost before = *self;
        if self.blocks.contains_key(&key) {
            assert forall|q: BlockPosition| q != *block_position implies #[trigger] self.placeholder(q)
                == before.placeholder(q) by {}
            return false;
        }
        let id = EntityId(id_allocator.allocate());
        self.blocks.insert(key, id);
        physics.insert_misc(id, block_bounds(block_position));
        proof {
            assert forall|q: BlockPosition| q != *block_position implies #[trigger] self.placeholder(q)
                == before.placeholder(q) by {
                if q.spec_key() == key {
                    q.lemma_key_injective(*block_position);
                }
            }
        }
        true
    }

    /// Unmark an in-progress block, taking its placeholder away. Returns
    /// whether the block had one.
    pub fn remove(&mut self, physics: &mut Physics, block_position: &BlockPosition) -> (removed: bool)
        ensures
            removed == (old(self).placeholder(*block_position) is Some),
            final(self).placeholder(*block_position) is None,
            final(self).same_elsewhere(*old(self), *block_position),
            final(physics).terrain() == old(physics).terrain(),
            final(physics).misc() == (match old(self).placeholder(*block_position) {
                Some(id) => old(physics).misc().remove(id),
                None => old(physics).misc(),
            }),
    {
        let key = block_position.key();
        let ghost before = *self;
        let removed = self.blocks.remove(&key);
        proof {
            assert forall|q: BlockPosition| q != *block_position implies #[trigger] self.placeholder(q)
                == before.placeholder(q) by {
                if q.spec_key() == key {
                    q.lemma_key_injective(*block_position);
                }
            }
        }
        match removed {
            Some(id) => {
                physics.remove_misc(id);
                true
            },
            None => false,
        }
    }
}

} // verus!

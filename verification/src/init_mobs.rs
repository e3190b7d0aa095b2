//! The mobs that a world starts with.

use crate::entity::EntityId;
use crate::id_allocator::IdAllocator;
use crate::lod::OwnerId;
use crate::physics::Physics;
use crate::server::{foot, spec_foot, Behavior, Mob};
use crate::surroundings_loader::SurroundingsLoader;
use crate::terrain::AMPLITUDE;
use crate::terrain_block::{Aabb3, Point3, FIXED_ONE};
use vstd::prelude::*;

verus! {

/// The box of a mob whose low corner is at a point: one unit wide and deep
/// and two units tall.
pub open spec fn spec_mob_bounds(low_corner: Point3) -> Aabb3 {
    Aabb3 {
        min: low_corner,
        max: Point3 {
            x: (low_corner.x + FIXED_ONE) as i64,
            y: (low_corner.y + 2 * FIXED_ONE) as i64,
            z: (low_corner.z + FIXED_ONE) as i64,
        },
    }
}

/// Where the one mob of a new world stands: next to the origin, on the
/// height of the greatest amplitude of the terrain.
pub open spec fn spec_first_mob_corner() -> Point3 {
    Point3 { x: 0, y: (AMPLITUDE * FIXED_ONE) as i64, z: (-FIXED_ONE) as i64 }
}

/// Whether a point leaves room for the box of a mob.
pub open spec fn corner_in_range(low_corner: Point3) -> bool {
    &&& low_corner.x + FIXED_ONE <= i64::MAX
    &&& low_corner.y + 2 * FIXED_ONE <= i64::MAX
    &&& low_corner.z + FIXED_ONE <= i64::MAX
}

/// Add a mob to the world: it gets the next entity and the next owner, its
/// box is filed among the colliders, and it starts out walking.
pub fn add_mob(
    physics: &mut Physics,
    mobs: &mut Vec<Mob>,
    id_allocator: &mut IdAllocator,
    owner_allocator: &mut IdAllocator,
    low_corner: Point3,
    behavior: Behavior,
)
    requires
        old(id_allocator).remaining() >= 1,
        old(owner_allocator).remaining() >= 1,
        corner_in_range(low_corner),
        forall|i: int| 0 <= i < old(mobs)@.len() ==> (#[trigger] old(mobs)@[i]).wf(),
    ensures
        forall|i: int| 0 <= i < final(mobs)@.len() ==> (#[trigger] final(mobs)@[i]).wf(),
        final(mobs)@.len() == old(mobs)@.len() + 1,
        final(mobs)@.drop_last() == old(mobs)@,
        final(mobs)@.last().entity_id == EntityId(old(id_allocator).spec_next() as u32),
        final(mobs)@.last().owner_id == OwnerId(old(owner_allocator).spec_next() as u32),
        final(mobs)@.last().position == spec_foot(spec_mob_bounds(low_corner)),
        final(mobs)@.last().behavior == behavior,
        final(mobs)@.last().surroundings_loader.spec_last_position() is None,
        final(mobs)@.last().surroundings_loader.spec_max_load_distance() == 1,
        final(mobs)@.last().surroundings_loader.spec_lod_thresholds() == Seq::<i32>::empty(),
        final(id_allocator).spec_next() == old(id_allocator).spec_next() + 1,
        final(owner_allocator).spec_next() == old(owner_allocator).spec_next() + 1,
        final(physics).misc() == old(physics).misc().insert(
            EntityId(old(id_allocator).spec_next() as u32),
            spec_mob_bounds(low_corner),
        ),
        final(physics).terrain() == old(physics).terrain(),
{
    let id = EntityId(id_allocator.allocate());
    assert(FIXED_ONE == 1024);
    let bounds = Aabb3 {
        min: low_corner,
        max: Point3 { x: low_corner.x + 1024, y: low_corner.y + 2048, z: low_corner.z + 1024 },
    };
    let mob = Mob {
        position: foot(&bounds),
        behavior,
        entity_id: id,
        owner_id: OwnerId(owner_allocator.allocate()),
        surroundings_loader: SurroundingsLoader::new(1, Vec::new()),
    };
    physics.insert_misc(id, bounds);
    mobs.push(mob);
    proof {
        assert(mobs@.drop_last() =~= old(mobs)@);
        assert forall|i: int| 0 <= i < mobs@.len() implies (#[trigger] mobs@[i]).wf() by {
            if i < old(mobs)@.len() {
                assert(mobs@[i] == old(mobs)@[i]);
            }
        }
    }
}

/// The mobs that a world starts with: one, next to the origin.
pub fn init_mobs(physics: &mut Physics, id_allocator: &mut IdAllocator, owner_allocator: &mut IdAllocator) -> (mobs: Vec<
    Mob,
>)
    requires
        old(id_allocator).remaining() >= 1,
        old(owner_allocator).remaining() >= 1,
    ensures
        mobs@.len() == 1,
        mobs@[0].wf(),
        mobs@[0].entity_id == EntityId(old(id_allocator).spec_next() as u32),
        mobs@[0].owner_id == OwnerId(old(owner_allocator).spec_next() as u32),
        mobs@[0].position == spec_foot(spec_mob_bounds(spec_first_mob_corner())),
        mobs@[0].behavior == Behavior::Walk,
        mobs@[0].surroundings_loader.spec_last_position() is None,
        mobs@[0].surroundings_loader.spec_max_load_distance() == 1,
        final(id_allocator).spec_next() == old(id_allocator).spec_next() + 1,
        final(owner_allocator).spec_next() == old(owner_allocator).spec_next() + 1,
        final(physics).misc() == old(physics).misc().insert(
            EntityId(old(id_allocator).spec_next() as u32),
            spec_mob_bounds(spec_first_mob_corner()),
        ),
        final(physics).terrain() == old(physics).terrain(),
{
    let mut mobs: Vec<Mob> = Vec::new();
    assert(AMPLITUDE == 64 && FIXED_ONE == 1024);
    add_mob(
        physics,
        &mut mobs,
        id_allocator,
        owner_allocator,
        Point3 { x: 0, y: 64 * 1024, z: -1024 },
        Behavior::Walk,
    );
    mobs
}

} // verus!

//! Identifiers of loaded entities.

use vstd::prelude::*;

verus! {

/// Unique ID for a loaded entity.
#[derive(Copy, Clone, PartialEq, Eq, PartialOrd, Ord, Hash, Debug, Structural)]
pub struct EntityId(pub u32);

impl Default for EntityId {
    fn default() -> (id: EntityId)
        ensures
            id == EntityId(0),
    {
        EntityId(0)
    }
}

impl core::ops::Add<u32> for EntityId {
    type Output = EntityId;

    fn add(self, rhs: u32) -> (sum: EntityId) {
        EntityId(self.0 + rhs)
    }
}

impl vstd::std_specs::ops::AddSpecImpl<u32> for EntityId {
    open spec fn obeys_add_spec() -> bool {
        true
    }

    open spec fn add_req(self, rhs: u32) -> bool {
        self.0 + rhs <= u32::MAX
    }

    open spec fn add_spec(self, rhs: u32) -> EntityId {
        EntityId((self.0 + rhs) as u32)
    }
}

} // verus!

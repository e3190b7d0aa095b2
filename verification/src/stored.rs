//! What meshing leaves in the voxel tree.

use crate::field::FieldSamples;
use crate::generate::voxel_at;
use crate::voxel::{Bounds, Voxel};
use crate::voxel_tree::{nested, VoxelTree};
use vstd::prelude::*;

verus! {

/// Two trees from which meshing reads the same voxel at every place of one
/// voxel size.
#[verifier::opaque]
pub open spec fn read_alike(a: VoxelTree, b: VoxelTree, field: FieldSamples, lg: int) -> bool {
    forall|o: Bounds| o.lg_size == lg ==> #[trigger] voxel_at(a, field, o) == voxel_at(b, field, o)
}

/// Whether a tree still stores every voxel of one size that another tree
/// stores, and stores no others but where the samples of the field include
/// all that is read of the voxel.
#[verifier::opaque]
pub open spec fn keeps(now: VoxelTree, before: VoxelTree, field: FieldSamples, lg: int) -> bool {
    forall|o: Bounds|
        o.lg_size == lg ==> {
            &&& (#[trigger] before.leaf(o)) is Some ==> now.leaf(o) == before.leaf(o)
            &&& before.leaf(o) is None && now.leaf(o) is Some ==> field.covers_voxel(o)
        }
}

/// Trees that read alike read the same voxel at every place of the size.
pub proof fn lemma_read_alike_at(a: VoxelTree, b: VoxelTree, field: FieldSamples, o: Bounds)
    requires
        read_alike(a, b, field, o.lg_size as int),
    ensures
        voxel_at(a, field, o) == voxel_at(b, field, o),
{
    reveal(read_alike);
}

/// Reading alike carries over: a tree that reads like a second, which
/// reads like a third, reads like the third.
pub proof fn lemma_read_alike_chain(a: VoxelTree, b: VoxelTree, c: VoxelTree, field: FieldSamples, lg: int)
    requires
        read_alike(a, b, field, lg),
        read_alike(b, c, field, lg),
    ensures
        read_alike(a, c, field, lg),
{
    reveal(read_alike);
}

/// A tree reads like itself, and keeps what it stores.
pub proof fn lemma_read_alike_same(a: VoxelTree, field: FieldSamples, lg: int)
    ensures
        read_alike(a, a, field, lg),
        keeps(a, a, field, lg),
{
    reveal(read_alike);
    reveal(keeps);
}

/// A tree that keeps what another stores stores the same voxel wherever
/// the other stores one.
pub proof fn lemma_keeps_at(now: VoxelTree, before: VoxelTree, field: FieldSamples, o: Bounds)
    requires
        keeps(now, before, field, o.lg_size as int),
        before.leaf(o) is Some,
    ensures
        now.leaf(o) == before.leaf(o),
{
    reveal(keeps);
}

/// Keeping carries over: a tree that keeps what a second stores, which
/// keeps what a third stores, keeps what the third stores.
pub proof fn lemma_keeps_chain(a: VoxelTree, b: VoxelTree, c: VoxelTree, field: FieldSamples, lg: int)
    requires
        keeps(a, b, field, lg),
        keeps(b, c, field, lg),
    ensures
        keeps(a, c, field, lg),
{
    reveal(keeps);
}

/// Two trees that both read like a third read like each other.
pub proof fn lemma_read_alike_back(a: VoxelTree, b: VoxelTree, c: VoxelTree, field: FieldSamples, lg: int)
    requires
        read_alike(a, c, field, lg),
        read_alike(b, c, field, lg),
    ensures
        read_alike(a, b, field, lg),
{
    reveal(read_alike);
}

/// Whether a voxel of another size holds one of the voxels of a set or
/// lies in one of them.
pub open spec fn displaced(stored: Set<Bounds>, o: Bounds) -> bool {
    exists|t: Bounds| stored.contains(t) && #[trigger] nested(t, o)
}

/// What a tree stores for a voxel once the voxels of one size that meshing
/// reads at the places of a set have been stored in it: at those places,
/// what meshing reads there; nothing for the voxels of other sizes that
/// hold one of those voxels or lie in one of them; and for every other
/// voxel what the tree stored before.
pub open spec fn leaf_once_stored(
    before: VoxelTree,
    field: FieldSamples,
    lg: int,
    stored: Set<Bounds>,
    o: Bounds,
) -> Option<Voxel> {
    if o.lg_size == lg {
        if stored.contains(o) {
            Some(voxel_at(before, field, o))
        } else {
            before.leaf(o)
        }
    } else if displaced(stored, o) {
        None
    } else {
        before.leaf(o)
    }
}

/// Whether a tree stores what another tree stores once the voxels of one
/// size that meshing reads at the places of a set have been stored in it.
#[verifier::opaque]
pub open spec fn filled(now: VoxelTree, before: VoxelTree, field: FieldSamples, lg: int, stored: Set<Bounds>) -> bool {
    forall|o: Bounds| #[trigger] now.leaf(o) == leaf_once_stored(before, field, lg, stored, o)
}

/// A tree stores what it stores: nothing has been stored in it since.
pub proof fn lemma_filled_none(a: VoxelTree, field: FieldSamples, lg: int)
    ensures
        filled(a, a, field, lg, Set::empty()),
{
    reveal(filled);
}

/// What a tree stores for a voxel once voxels have been stored in another
/// tree.
pub proof fn lemma_filled_at(now: VoxelTree, before: VoxelTree, field: FieldSamples, lg: int, stored: Set<Bounds>, o: Bounds)
    requires
        filled(now, before, field, lg, stored),
    ensures
        now.leaf(o) == leaf_once_stored(before, field, lg, stored, o),
{
    reveal(filled);
}

/// Storing carries over: what is stored at the places of a set, and then
/// at the places of a second set, is stored at the places of both.
pub proof fn lemma_filled_chain(
    last: VoxelTree,
    middle: VoxelTree,
    first: VoxelTree,
    field: FieldSamples,
    lg: int,
    sooner: Set<Bounds>,
    later: Set<Bounds>,
)
    requires
        filled(middle, first, field, lg, sooner),
        filled(last, middle, field, lg, later),
        read_alike(middle, first, field, lg),
    ensures
        filled(last, first, field, lg, sooner.union(later)),
{
    reveal(filled);
    reveal(read_alike);
    let both = sooner.union(later);
    assert forall|o: Bounds| #[trigger] last.leaf(o) == leaf_once_stored(first, field, lg, both, o) by {
        assert(last.leaf(o) == leaf_once_stored(middle, field, lg, later, o));
        assert(middle.leaf(o) == leaf_once_stored(first, field, lg, sooner, o));
        if o.lg_size == lg {
            assert(voxel_at(middle, field, o) == voxel_at(first, field, o));
        } else {
            if displaced(sooner, o) {
                let t = choose|t: Bounds| sooner.contains(t) && #[trigger] nested(t, o);
                assert(both.contains(t) && nested(t, o));
            }
            if displaced(later, o) {
                let t = choose|t: Bounds| later.contains(t) && #[trigger] nested(t, o);
                assert(both.contains(t) && nested(t, o));
            }
            if displaced(both, o) {
                let t = choose|t: Bounds| both.contains(t) && #[trigger] nested(t, o);
                if sooner.contains(t) {
                    assert(displaced(sooner, o));
                } else {
                    assert(displaced(later, o));
                }
            }
        }
    }
}

} // verus!

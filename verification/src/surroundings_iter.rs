//! Iteration over the surroundings of a point, nearest first.

use crate::block_position::{chebyshev, BlockPosition, MAX_RADIUS};
use crate::cube_shell::{cube_shell, lemma_cube_shell, spec_cube_shell};
use vstd::prelude::*;

verus! {

/// The points of a list, each paired with the same distance.
pub open spec fn at_distance(points: Seq<BlockPosition>, distance: int) -> Seq<(BlockPosition, i32)> {
    Seq::new(points.len(), |i: int| (points[i], distance as i32))
}

/// The cube shells around a point from one radius up to another, each
/// point paired with the radius of its shell.
pub open spec fn shells_from(center: BlockPosition, radius: int, max: int) -> Seq<(BlockPosition, i32)>
    decreases max - radius + 1,
{
    if radius > max {
        Seq::empty()
    } else {
        at_distance(spec_cube_shell(center, radius), radius) + shells_from(center, radius + 1, max)
    }
}

/// The surroundings of a point up to a distance: every position within
/// that Chebyshev distance, paired with its distance, nearest first.
pub open spec fn spec_surroundings(center: BlockPosition, max: int) -> Seq<(BlockPosition, i32)> {
    shells_from(center, 0, max)
}

/// A position is among the shells from one radius up to another just where
/// its distance from the centre is between the two, and it is then paired
/// with that distance.
pub proof fn lemma_shells_from(center: BlockPosition, radius: int, max: int, p: BlockPosition, d: i32)
    requires
        center.in_range(),
        0 <= radius,
        max <= MAX_RADIUS,
    ensures
        shells_from(center, radius, max).contains((p, d)) <==> d == chebyshev(center, p) && radius <= d <= max,
    decreases max - radius + 1,
{
    if radius <= max {
        let head = at_distance(spec_cube_shell(center, radius), radius);
        let tail = shells_from(center, radius + 1, max);
        let all = head + tail;
        lemma_shells_from(center, radius + 1, max, p, d);
        lemma_cube_shell(center, radius, p);
        if all.contains((p, d)) {
            let i = choose|i: int| 0 <= i < all.len() && all[i] == (p, d);
            if i < head.len() {
                assert(spec_cube_shell(center, radius)[i] == p);
            } else {
                assert(tail[i - head.len()] == (p, d));
            }
        }
        if d == chebyshev(center, p) && radius <= d <= max {
            if d == radius {
                let i = choose|i: int|
                    0 <= i < spec_cube_shell(center, radius).len() && spec_cube_shell(center, radius)[i] == p;
                assert(all[i] == (p, d));
            } else {
                let i = choose|i: int| 0 <= i < tail.len() && tail[i] == (p, d);
                assert(all[head.len() + i] == (p, d));
            }
        }
    }
}

/// Walks through the surroundings of a point, one cube shell after the
/// other, nearest first.
pub struct SurroundingsIter {
    center: BlockPosition,
    next_distance: i32,
    max_distance: i32,
    to_load_buffer: Vec<BlockPosition>,
    next_in_buffer: usize,
}

impl SurroundingsIter {
    /// The centre is in range, and so is the distance up to which the walk
    /// goes.
    pub closed spec fn wf(self) -> bool {
        &&& self.center.in_range()
        &&& 0 <= self.next_distance <= self.max_distance + 1
        &&& self.max_distance <= MAX_RADIUS
        &&& self.next_in_buffer <= self.to_load_buffer@.len()
    }

    /// What is still to come, in order.
    pub closed spec fn remaining(self) -> Seq<(BlockPosition, i32)> {
        at_distance(self.to_load_buffer@.skip(self.next_in_buffer as int), self.next_distance - 1) + shells_from(
            self.center,
            self.next_distance as int,
            self.max_distance as int,
        )
    }

    /// Start at the centre and go on up to the given distance.
    pub fn new(center: BlockPosition, max_distance: i32) -> (it: SurroundingsIter)
        requires
            center.in_range(),
            0 <= max_distance <= MAX_RADIUS,
        ensures
            it.wf(),
            it.remaining() == spec_surroundings(center, max_distance as int),
    {
        let it = SurroundingsIter {
            center,
            next_distance: 0,
            max_distance,
            to_load_buffer: Vec::new(),
            next_in_buffer: 0,
        };
        assert(it.remaining() =~= spec_surroundings(center, max_distance as int));
        it
    }

    /// The next position and its distance from the centre, or `None` when
    /// every position up to the greatest distance has been given.
    pub fn next(&mut self) -> (r: Option<(BlockPosition, i32)>)
        requires
            old(self).wf(),
        ensures
            final(self).wf(),
            r is None <==> old(self).remaining().len() == 0,
            r matches Some(x) ==> x == old(self).remaining()[0] && final(self).remaining() == old(
                self,
            ).remaining().drop_first(),
            r is None ==> final(self).remaining() == old(self).remaining(),
    {
        while self.next_in_buffer >= self.to_load_buffer.len() && self.next_distance <= self.max_distance
            invariant
                self.wf(),
                self.remaining() == old(self).remaining(),
            decreases self.max_distance - self.next_distance + 1,
        {
            let ghost before = self.remaining();
            self.to_load_buffer = cube_shell(&self.center, self.next_distance);
            self.next_in_buffer = 0;
            self.next_distance = self.next_distance + 1;
            assert(self.remaining() =~= before);
        }
        if self.next_in_buffer < self.to_load_buffer.len() {
            let p = self.to_load_buffer[self.next_in_buffer];
            let ghost before = self.remaining();
            self.next_in_buffer = self.next_in_buffer + 1;
            proof {
                assert(before[0] == (p, (self.next_distance - 1) as i32));
                assert(self.remaining() =~= before.drop_first());
            }
            Some((p, self.next_distance - 1))
        } else {
            assert(self.remaining() =~= Seq::empty());
            None
        }
    }
}

} // verus!

//! This data structure emits messages to maintain its surrounding blocks in a desired
//! loaded state (e.g. to keep player surroundings loaded, or to keep unloaded blocks
//! solid near the player).

use crate::block_position::{chebyshev, BlockPosition, MAX_COORDINATE, MAX_RADIUS};
use crate::cube_shell::{cube_diff, lemma_cube_diff, spec_cube_diff};
use crate::surroundings_iter::{lemma_shells_from, spec_surroundings, SurroundingsIter};
use std::collections::VecDeque;
use vstd::prelude::*;

verus! {

// Rough budget (in microseconds) for how long block updating can take PER SurroundingsLoader.
pub const BLOCK_UPDATE_BUDGET: u64 = 20000;

/// Find the minimum cube shell radius it would take from one point to
/// intersect the other.
pub fn radius_between(one: &BlockPosition, other: &BlockPosition) -> (r: i32)
    requires
        chebyshev(*one, *other) <= i32::MAX,
    ensures
        r == chebyshev(*one, *other),
{
    let dx: i64 = if one.x >= other.x { one.x as i64 - other.x as i64 } else { other.x as i64 - one.x as i64 };
    let dy: i64 = if one.y >= other.y { one.y as i64 - other.y as i64 } else { other.y as i64 - one.y as i64 };
    let dz: i64 = if one.z >= other.z { one.z as i64 - other.z as i64 } else { other.z as i64 - one.z as i64 };
    if dx >= dy && dx >= dz {
        dx as i32
    } else if dy >= dz {
        dy as i32
    } else {
        dz as i32
    }
}

/// The type of message emitted by `SurroundingsLoader`. This stream of messages maintains
/// an owner's desired surroundings.
#[derive(Debug, Copy, Clone, PartialEq, Eq, Structural)]
pub enum LODChange {
    /// Acquire/update an owner's handle on a given location. The distance is also passed.
    Load(BlockPosition, i32),
    /// Release an owner's handle on a given location.
    Unload(BlockPosition),
}

impl LODChange {
    /// The location that the message is about.
    pub open spec fn spec_position(self) -> BlockPosition {
        match self {
            LODChange::Load(p, _) => p,
            LODChange::Unload(p) => p,
        }
    }

    /// The location that the message is about.
    pub fn position(&self) -> (p: BlockPosition)
        ensures
            p == self.spec_position(),
    {
        match self {
            LODChange::Load(p, _) => *p,
            LODChange::Unload(p) => *p,
        }
    }
}

/// Given a previous location and current location, determine which blocks should
/// be checked for LOD changes.
pub trait GetLODChanges: FnMut(&BlockPosition, &BlockPosition) -> Vec<BlockPosition> {

}

impl<F> GetLODChanges for F where F: FnMut(&BlockPosition, &BlockPosition) -> Vec<BlockPosition> {

}

/// Whether a position is near enough to every centre in range for its
/// distance from the centre to be computed.
pub open spec fn near(p: BlockPosition) -> bool {
    &&& -MAX_COORDINATE - MAX_RADIUS <= p.x <= MAX_COORDINATE + MAX_RADIUS
    &&& -MAX_COORDINATE - MAX_RADIUS <= p.y <= MAX_COORDINATE + MAX_RADIUS
    &&& -MAX_COORDINATE - MAX_RADIUS <= p.z <= MAX_COORDINATE + MAX_RADIUS
}

/// What is emitted for a position that is looked at again: its release
/// where it is farther from the centre than loading goes, and else its
/// acquisition with its distance.
pub open spec fn recheck_change(center: BlockPosition, max_load_distance: int, q: BlockPosition) -> LODChange {
    if chebyshev(center, q) > max_load_distance {
        LODChange::Unload(q)
    } else {
        LODChange::Load(q, chebyshev(center, q) as i32)
    }
}

/// The positions to look at again after a move: for each threshold in
/// turn, and then for the greatest load distance, those on the shell of
/// that radius around exactly one of the old and the new centre.
pub open spec fn rechecks_for(
    last: BlockPosition,
    position: BlockPosition,
    thresholds: Seq<i32>,
    max_load_distance: int,
) -> Seq<BlockPosition> {
    threshold_rechecks(last, position, thresholds) + spec_cube_diff(last, position, max_load_distance)
}

/// The positions to look at again after a move on account of the
/// thresholds alone.
pub open spec fn threshold_rechecks(last: BlockPosition, position: BlockPosition, thresholds: Seq<i32>) -> Seq<
    BlockPosition,
>
    decreases thresholds.len(),
{
    if thresholds.len() == 0 {
        Seq::empty()
    } else {
        threshold_rechecks(last, position, thresholds.drop_last()) + spec_cube_diff(
            last,
            position,
            thresholds.last() as int,
        )
    }
}

/// The messages that are due: first one for every position that is to be
/// looked at again, then an acquisition for every position that is still to
/// be loaded.
pub open spec fn pending_changes(
    center: BlockPosition,
    max_load_distance: int,
    recheck: Seq<BlockPosition>,
    to_load: Seq<(BlockPosition, i32)>,
) -> Seq<LODChange> {
    Seq::new(recheck.len(), |i: int| recheck_change(center, max_load_distance, recheck[i])) + Seq::new(
        to_load.len(),
        |i: int| LODChange::Load(to_load[i].0, to_load[i].1),
    )
}

/// Whether a list is what is left of another once some of its first
/// entries have been taken.
pub open spec fn is_tail(tail: Seq<(BlockPosition, i32)>, whole: Seq<(BlockPosition, i32)>) -> bool {
    exists|k: int| 0 <= k <= whole.len() && tail == #[trigger] whole.skip(k)
}

/// Iteratively load BlockPositions in cube-shaped layers around the some point.
/// That point can be updated with calls to `update`.
pub struct SurroundingsLoader {
    last_position: Option<BlockPosition>,
    max_load_distance: i32,
    to_load: Option<SurroundingsIter>,
    to_recheck: VecDeque<BlockPosition>,
    // The distances to the switches between LODs.
    lod_thresholds: Vec<i32>,
}

impl SurroundingsLoader {
    /// The distances are in range, every position that is to be looked at
    /// again is near, and what is still to be loaded is what is left of the
    /// surroundings of the last centre.
    pub closed spec fn wf(self) -> bool {
        &&& 0 <= self.max_load_distance <= MAX_RADIUS
        &&& forall|i: int| 0 <= i < self.lod_thresholds@.len() ==> #[trigger] self.lod_thresholds@[i] <= MAX_RADIUS
        &&& forall|i: int| 0 <= i < self.to_recheck@.len() ==> near(#[trigger] self.to_recheck@[i])
        &&& self.last_position matches Some(p) ==> p.in_range()
        &&& self.to_load matches Some(it) ==> it.wf()
        &&& self.to_load is Some <==> self.last_position is Some
        &&& (self.last_position, self.to_load) matches (Some(p), Some(it)) ==> is_tail(
            it.remaining(),
            spec_surroundings(p, self.max_load_distance as int),
        )
    }

    /// What holds of a well-formed loader: the greatest load distance and
    /// the thresholds are in range, the last centre is in range, every
    /// position that is to be looked at again is near, and what is still to
    /// be loaded is what is left of the surroundings of the last centre, so
    /// that every position in it is paired with its distance from that
    /// centre, which is no more than the greatest load distance.
    pub proof fn lemma_wf(self)
        requires
            self.wf(),
        ensures
            0 <= self.spec_max_load_distance() <= MAX_RADIUS,
            forall|i: int|
                0 <= i < self.spec_lod_thresholds().len() ==> #[trigger] self.spec_lod_thresholds()[i] <= MAX_RADIUS,
            forall|i: int| 0 <= i < self.recheck().len() ==> near(#[trigger] self.recheck()[i]),
            match self.spec_last_position() {
                Some(p) => {
                    &&& p.in_range()
                    &&& is_tail(self.to_load(), spec_surroundings(p, self.spec_max_load_distance()))
                    &&& forall|i: int|
                        0 <= i < self.to_load().len() ==> (#[trigger] self.to_load()[i]).1 == chebyshev(
                            p,
                            self.to_load()[i].0,
                        ) && 0 <= self.to_load()[i].1 <= self.spec_max_load_distance()
                },
                None => self.to_load() == Seq::<(BlockPosition, i32)>::empty(),
            },
    {
        match self.spec_last_position() {
            Some(p) => {
                let whole = spec_surroundings(p, self.spec_max_load_distance());
                let k = choose|k: int| 0 <= k <= whole.len() && self.to_load() == whole.skip(k);
                assert forall|i: int| 0 <= i < self.to_load().len() implies (#[trigger] self.to_load()[i]).1
                    == chebyshev(p, self.to_load()[i].0) && 0 <= self.to_load()[i].1
                    <= self.spec_max_load_distance() by {
                    let x = self.to_load()[i];
                    assert(whole[k + i] == x);
                    assert(whole.contains(x));
                    lemma_shells_from(p, 0, self.spec_max_load_distance(), x.0, x.1);
                }
            },
            None => {},
        }
    }

    /// The centre that was last loaded around.
    pub closed spec fn spec_last_position(self) -> Option<BlockPosition> {
        self.last_position
    }

    /// How far from the centre blocks are loaded.
    pub closed spec fn spec_max_load_distance(self) -> int {
        self.max_load_distance as int
    }

    /// The distances at which the level of detail switches.
    pub closed spec fn spec_lod_thresholds(self) -> Seq<i32> {
        self.lod_thresholds@
    }

    /// The positions that are to be looked at again, in order.
    pub closed spec fn recheck(self) -> Seq<BlockPosition> {
        self.to_recheck@
    }

    /// The positions that are still to be loaded, with their distances, in
    /// order.
    pub closed spec fn to_load(self) -> Seq<(BlockPosition, i32)> {
        match self.to_load {
            Some(it) => it.remaining(),
            None => Seq::empty(),
        }
    }

    /// The messages that are due.
    pub open spec fn pending(self) -> Seq<LODChange> {
        match self.spec_last_position() {
            Some(center) => pending_changes(center, self.spec_max_load_distance(), self.recheck(), self.to_load()),
            None => Seq::empty(),
        }
    }

    /// A loader that has not loaded around anything yet.
    pub fn new(max_load_distance: i32, lod_thresholds: Vec<i32>) -> (loader: SurroundingsLoader)
        requires
            0 <= max_load_distance <= MAX_RADIUS,
            forall|i: int| 0 <= i < lod_thresholds@.len() ==> #[trigger] lod_thresholds@[i] <= MAX_RADIUS,
        ensures
            loader.wf(),
            loader.spec_last_position() is None,
            loader.spec_max_load_distance() == max_load_distance,
            loader.spec_lod_thresholds() == lod_thresholds@,
            loader.recheck() == Seq::<BlockPosition>::empty(),
            loader.to_load() == Seq::<(BlockPosition, i32)>::empty(),
    {
        SurroundingsLoader {
            last_position: None,
            to_load: None,
            max_load_distance,
            to_recheck: VecDeque::new(),
            lod_thresholds,
        }
    }

    /// The positions that are to be looked at again once the centre has
    /// moved to `position`.
    pub open spec fn recheck_after_move(self, position: BlockPosition) -> Seq<BlockPosition> {
        match self.spec_last_position() {
            Some(last) => if last == position {
                self.recheck()
            } else {
                self.recheck() + rechecks_for(
                    last,
                    position,
                    self.spec_lod_thresholds(),
                    self.spec_max_load_distance(),
                )
            },
            None => self.recheck(),
        }
    }

    /// The positions that are still to be loaded once the centre has moved
    /// to `position`: all the surroundings of a new centre.
    pub open spec fn to_load_after_move(self, position: BlockPosition) -> Seq<(BlockPosition, i32)> {
        if self.spec_last_position() == Some(position) {
            self.to_load()
        } else {
            spec_surroundings(position, self.spec_max_load_distance())
        }
    }

    /// The messages that are due once the centre has moved to `position`.
    pub open spec fn pending_after_move(self, position: BlockPosition) -> Seq<LODChange> {
        pending_changes(
            position,
            self.spec_max_load_distance(),
            self.recheck_after_move(position),
            self.to_load_after_move(position),
        )
    }

    /// Move the centre around which blocks are loaded. Where the centre
    /// changes, loading starts over from the new centre, and the positions
    /// on the shells that the move shifts are queued to be looked at again.
    pub fn set_position(&mut self, position: BlockPosition)
        requires
            old(self).wf(),
            position.in_range(),
        ensures
            final(self).wf(),
            final(self).spec_last_position() == Some(position),
            final(self).spec_max_load_distance() == old(self).spec_max_load_distance(),
            final(self).spec_lod_thresholds() == old(self).spec_lod_thresholds(),
            final(self).recheck() == old(self).recheck_after_move(position),
            final(self).to_load() == old(self).to_load_after_move(position),
    {
        let position_changed = match self.last_position {
            Some(last) => last != position,
            None => true,
        };
        if position_changed {
            let last = self.last_position;
            self.to_load = Some(SurroundingsIter::new(position, self.max_load_distance));
            self.last_position = Some(position);
            proof {
                let whole = spec_surroundings(position, self.max_load_distance as int);
                assert(whole.skip(0) =~= whole);
            }
            match last {
                Some(last_position) => {
                    let ghost before = self.to_recheck@;
                    let mut i: usize = 0;
                    proof {
                        assert(self.lod_thresholds@.take(0) =~= Seq::empty());
                        assert(before + Seq::<BlockPosition>::empty() =~= before);
                    }
                    while i < self.lod_thresholds.len()
                        invariant
                            self.wf(),
                            position.in_range(),
                            last_position.in_range(),
                            i <= self.lod_thresholds@.len(),
                            self.last_position == Some(position),
                            self.max_load_distance == old(self).max_load_distance,
                            self.lod_thresholds == old(self).lod_thresholds,
                            self.to_load matches Some(it) && it.remaining() == spec_surroundings(
                                position,
                                self.max_load_distance as int,
                            ),
                            self.to_recheck@ == before + threshold_rechecks(
                                last_position,
                                position,
                                self.lod_thresholds@.take(i as int),
                            ),
                        decreases self.lod_thresholds@.len() - i,
                    {
                        let distance = self.lod_thresholds[i];
                        let diff = cube_diff(&last_position, &position, distance);
                        proof {
                            assert(self.lod_thresholds@.take(i + 1).drop_last() =~= self.lod_thresholds@.take(i as int));
                            lemma_diff_near(last_position, position, distance as int);
                            assert((before + threshold_rechecks(
                                last_position,
                                position,
                                self.lod_thresholds@.take(i as int),
                            )) + diff@ =~= before + threshold_rechecks(
                                last_position,
                                position,
                                self.lod_thresholds@.take(i + 1),
                            ));
                        }
                        extend_back(&mut self.to_recheck, &diff);
                        i = i + 1;
                    }
                    let diff = cube_diff(&last_position, &position, self.max_load_distance);
                    proof {
                        assert(self.lod_thresholds@.take(i as int) =~= self.lod_thresholds@);
                        lemma_diff_near(last_position, position, self.max_load_distance as int);
                        assert((before + threshold_rechecks(last_position, position, self.lod_thresholds@)) + diff@
                            =~= before + rechecks_for(
                            last_position,
                            position,
                            self.lod_thresholds@,
                            self.max_load_distance as int,
                        ));
                    }
                    extend_back(&mut self.to_recheck, &diff);
                },
                None => {},
            }
        }
    }

    /// Emit the next message that is due, if any: first those for the
    /// positions to look at again, in order, then those for the positions
    /// still to be loaded, nearest first.
    pub fn next_change(&mut self) -> (change: Option<LODChange>)
        requires
            old(self).wf(),
        ensures
            final(self).wf(),
            final(self).spec_last_position() == old(self).spec_last_position(),
            final(self).spec_max_load_distance() == old(self).spec_max_load_distance(),
            final(self).spec_lod_thresholds() == old(self).spec_lod_thresholds(),
            change is None <==> old(self).pending().len() == 0,
            change matches Some(c) ==> c == old(self).pending()[0],
            final(self).pending() == (if change is Some {
                old(self).pending().drop_first()
            } else {
                old(self).pending()
            }),
            final(self).recheck() == (if old(self).recheck().len() > 0 && change is Some {
                old(self).recheck().drop_first()
            } else {
                old(self).recheck()
            }),
            final(self).to_load() == (if old(self).recheck().len() == 0 && change is Some {
                old(self).to_load().drop_first()
            } else {
                old(self).to_load()
            }),
    {
        let position = match self.last_position {
            Some(position) => position,
            None => {
                return None;
            },
        };
        let ghost before = *self;
        match self.to_recheck.pop_front() {
            Some(block_position) => {
                assert(near(before.to_recheck@[0]));
                let distance = radius_between(&position, &block_position);
                proof {
                    assert(self.to_recheck@ =~= before.to_recheck@.drop_first());
                    assert(self.pending() =~= before.pending().drop_first());
                }
                if distance > self.max_load_distance {
                    Some(LODChange::Unload(block_position))
                } else {
                    Some(LODChange::Load(block_position, distance))
                }
            },
            None => {
                let next = match &mut self.to_load {
                    Some(it) => it.next(),
                    None => None,
                };
                proof {
                    assert(self.to_recheck@ =~= before.to_recheck@);
                }
                match next {
                    None => {
                        assert(self.pending() =~= before.pending());
                        None
                    },
                    Some((block_position, distance)) => {
                        proof {
                            assert(self.pending() =~= before.pending().drop_first());
                            let whole = spec_surroundings(position, self.max_load_distance as int);
                            let k = choose|k: int| 0 <= k <= whole.len() && before.to_load() == whole.skip(k);
                            assert(whole.skip(k).drop_first() =~= whole.skip(k + 1));
                            assert(self.to_load() == whole.skip(k + 1));
                        }
                        Some(LODChange::Load(block_position, distance))
                    },
                }
            },
        }
    }
}

impl SurroundingsLoader {
    /// Update the center point around which we load, and load some more
    /// blocks: emit the messages that are due, in order, but no more than
    /// `budget` of them. What is left over stays due.
    pub fn update(&mut self, position: BlockPosition, budget: usize) -> (changes: Vec<LODChange>)
        requires
            old(self).wf(),
            position.in_range(),
        ensures
            final(self).wf(),
            final(self).spec_last_position() == Some(position),
            final(self).spec_max_load_distance() == old(self).spec_max_load_distance(),
            final(self).spec_lod_thresholds() == old(self).spec_lod_thresholds(),
            changes@.len() == (if budget <= old(self).pending_after_move(position).len() {
                budget as int
            } else {
                old(self).pending_after_move(position).len() as int
            }),
            changes@ == old(self).pending_after_move(position).take(changes@.len() as int),
            final(self).pending() == old(self).pending_after_move(position).skip(changes@.len() as int),
            final(self).recheck() == (if changes@.len() <= old(self).recheck_after_move(position).len() {
                old(self).recheck_after_move(position).skip(changes@.len() as int)
            } else {
                Seq::empty()
            }),
            final(self).to_load() == (if changes@.len() <= old(self).recheck_after_move(position).len() {
                old(self).to_load_after_move(position)
            } else {
                old(self).to_load_after_move(position).skip(
                    changes@.len() - old(self).recheck_after_move(position).len(),
                )
            }),
    {
        self.set_position(position);
        let ghost due = self.pending();
        let mut changes: Vec<LODChange> = Vec::new();
        assert(changes@ =~= due.take(0));
        assert(due.skip(0) =~= due);
        assert(self.recheck().skip(0) =~= self.recheck());
        while changes.len() < budget
            invariant
                self.wf(),
                self.spec_last_position() == Some(position),
                self.spec_max_load_distance() == old(self).spec_max_load_distance(),
                self.spec_lod_thresholds() == old(self).spec_lod_thresholds(),
                due == old(self).pending_after_move(position),
                changes@.len() <= budget,
                changes@.len() <= due.len(),
                changes@ == due.take(changes@.len() as int),
                self.pending() == due.skip(changes@.len() as int),
                self.recheck() == (if changes@.len() <= old(self).recheck_after_move(position).len() {
                    old(self).recheck_after_move(position).skip(changes@.len() as int)
                } else {
                    Seq::empty()
                }),
                self.to_load() == (if changes@.len() <= old(self).recheck_after_move(position).len() {
                    old(self).to_load_after_move(position)
                } else {
                    old(self).to_load_after_move(position).skip(
                        changes@.len() - old(self).recheck_after_move(position).len(),
                    )
                }),
            ensures
                changes@.len() == (if budget <= due.len() {
                    budget as int
                } else {
                    due.len() as int
                }),
            decreases budget - changes@.len(),
        {
            let ghost sent = changes@.len() as int;
            match self.next_change() {
                None => {
                    break ;
                },
                Some(change) => {
                    changes.push(change);
                    proof {
                        let recheck = old(self).recheck_after_move(position);
                        let to_load = old(self).to_load_after_move(position);
                        assert(due.take(sent + 1) =~= due.take(sent).push(due[sent]));
                        assert(due.skip(sent).drop_first() =~= due.skip(sent + 1));
                        if sent < recheck.len() {
                            assert(recheck.skip(sent).drop_first() =~= recheck.skip(sent + 1));
                        } else if sent == recheck.len() {
                            assert(to_load.drop_first() =~= to_load.skip(1));
                        } else {
                            assert(to_load.skip(sent - recheck.len()).drop_first() =~= to_load.skip(
                                sent + 1 - recheck.len(),
                            ));
                        }
                    }
                },
            }
        }
        changes
    }

    /// The level of detail that goes with a distance: the index of the
    /// smallest threshold that is no smaller than the distance, the first
    /// of them where several are the same. Where every threshold is smaller
    /// than the distance, the number of thresholds.
    pub fn lod_at(&self, distance: i32) -> (index: usize)
        ensures
            index <= self.spec_lod_thresholds().len(),
            index < self.spec_lod_thresholds().len() ==> {
                &&& self.spec_lod_thresholds()[index as int] >= distance
                &&& forall|i: int|
                    0 <= i < self.spec_lod_thresholds().len() && #[trigger] self.spec_lod_thresholds()[i] >= distance
                        ==> self.spec_lod_thresholds()[index as int] <= self.spec_lod_thresholds()[i]
                &&& forall|i: int|
                    0 <= i < index ==> #[trigger] self.spec_lod_thresholds()[i] != self.spec_lod_thresholds()[index as int]
            },
            index == self.spec_lod_thresholds().len() ==> forall|i: int|
                0 <= i < self.spec_lod_thresholds().len() ==> #[trigger] self.spec_lod_thresholds()[i] < distance,
    {
        let mut best: usize = self.lod_thresholds.len();
        let mut i: usize = 0;
        while i < self.lod_thresholds.len()
            invariant
                i <= self.lod_thresholds@.len(),
                best <= self.lod_thresholds@.len(),
                best < self.lod_thresholds@.len() ==> {
                    &&& best < i
                    &&& self.lod_thresholds@[best as int] >= distance
                    &&& forall|k: int|
                        0 <= k < i && #[trigger] self.lod_thresholds@[k] >= distance ==> self.lod_thresholds@[best as int]
                            <= self.lod_thresholds@[k]
                    &&& forall|k: int|
                        0 <= k < best ==> #[trigger] self.lod_thresholds@[k] != self.lod_thresholds@[best as int]
                },
                best == self.lod_thresholds@.len() ==> forall|k: int|
                    0 <= k < i ==> #[trigger] self.lod_thresholds@[k] < distance,
            decreases self.lod_thresholds@.len() - i,
        {
            let threshold = self.lod_thresholds[i];
            if threshold >= distance {
                if best == self.lod_thresholds.len() || threshold < self.lod_thresholds[best] {
                    best = i;
                }
            }
            i = i + 1;
        }
        best
    }
}

/// A position occurs among the positions to look at again after a move
/// just where, for the greatest load distance or for one of the
/// thresholds, it is on the shell of that radius around exactly one of the
/// two centres.
pub proof fn lemma_rechecks_for(
    last: BlockPosition,
    position: BlockPosition,
    thresholds: Seq<i32>,
    max_load_distance: int,
    q: BlockPosition,
)
    requires
        last.in_range(),
        position.in_range(),
        max_load_distance <= MAX_RADIUS,
        forall|i: int| 0 <= i < thresholds.len() ==> #[trigger] thresholds[i] <= MAX_RADIUS,
    ensures
        rechecks_for(last, position, thresholds, max_load_distance).contains(q) <==> shifts_shell(
            last,
            position,
            max_load_distance,
            q,
        ) || exists|i: int| 0 <= i < thresholds.len() && shifts_shell(last, position, #[trigger] thresholds[i] as int, q),
{
    lemma_threshold_rechecks(last, position, thresholds, q);
    lemma_cube_diff(last, position, max_load_distance, q);
    lemma_contains_concat(
        threshold_rechecks(last, position, thresholds),
        spec_cube_diff(last, position, max_load_distance),
        q,
    );
}

/// Whether a position is on the shell of radius `r` around exactly one of
/// two centres.
pub open spec fn shifts_shell(last: BlockPosition, position: BlockPosition, r: int, q: BlockPosition) -> bool {
    (chebyshev(last, q) == r) != (chebyshev(position, q) == r)
}

proof fn lemma_contains_concat(a: Seq<BlockPosition>, b: Seq<BlockPosition>, q: BlockPosition)
    ensures
        (a + b).contains(q) <==> a.contains(q) || b.contains(q),
{
    let s = a + b;
    if s.contains(q) {
        let i = choose|i: int| 0 <= i < s.len() && s[i] == q;
        if i < a.len() {
            assert(a[i] == q);
        } else {
            assert(b[i - a.len()] == q);
        }
    }
    if a.contains(q) {
        let i = choose|i: int| 0 <= i < a.len() && a[i] == q;
        assert(s[i] == q);
    }
    if b.contains(q) {
        let i = choose|i: int| 0 <= i < b.len() && b[i] == q;
        assert(s[a.len() + i] == q);
    }
}

proof fn lemma_threshold_rechecks(last: BlockPosition, position: BlockPosition, thresholds: Seq<i32>, q: BlockPosition)
    requires
        last.in_range(),
        position.in_range(),
        forall|i: int| 0 <= i < thresholds.len() ==> #[trigger] thresholds[i] <= MAX_RADIUS,
    ensures
        threshold_rechecks(last, position, thresholds).contains(q) <==> exists|i: int|
            0 <= i < thresholds.len() && shifts_shell(last, position, #[trigger] thresholds[i] as int, q),
    decreases thresholds.len(),
{
    if thresholds.len() > 0 {
        let rest = thresholds.drop_last();
        lemma_threshold_rechecks(last, position, rest, q);
        lemma_cube_diff(last, position, thresholds.last() as int, q);
        lemma_contains_concat(
            threshold_rechecks(last, position, rest),
            spec_cube_diff(last, position, thresholds.last() as int),
            q,
        );
        if exists|i: int| 0 <= i < rest.len() && shifts_shell(last, position, #[trigger] rest[i] as int, q) {
            let i = choose|i: int| 0 <= i < rest.len() && shifts_shell(last, position, #[trigger] rest[i] as int, q);
            assert(thresholds[i] == rest[i]);
        }
        if shifts_shell(last, position, thresholds.last() as int, q) {
            assert(thresholds[thresholds.len() - 1] == thresholds.last());
        }
        if exists|i: int| 0 <= i < thresholds.len() && shifts_shell(last, position, #[trigger] thresholds[i] as int, q) {
            let i = choose|i: int|
                0 <= i < thresholds.len() && shifts_shell(last, position, #[trigger] thresholds[i] as int, q);
            if i < rest.len() {
                assert(rest[i] == thresholds[i]);
            }
        }
    }
}

/// Whether some message of a list is about a position.
pub open spec fn mentions(changes: Seq<LODChange>, q: BlockPosition) -> bool {
    exists|i: int| 0 <= i < changes.len() && (#[trigger] changes[i]).spec_position() == q
}

/// The messages that are due after a move are about the positions to look
/// at again and about the surroundings of the new centre, and about no
/// others.
pub proof fn lemma_pending_mentions(
    last: BlockPosition,
    position: BlockPosition,
    thresholds: Seq<i32>,
    max_load_distance: int,
    q: BlockPosition,
)
    requires
        last.in_range(),
        position.in_range(),
        0 <= max_load_distance <= MAX_RADIUS,
        forall|i: int| 0 <= i < thresholds.len() ==> #[trigger] thresholds[i] <= MAX_RADIUS,
    ensures
        mentions(
            pending_changes(
                position,
                max_load_distance,
                rechecks_for(last, position, thresholds, max_load_distance),
                spec_surroundings(position, max_load_distance),
            ),
            q,
        ) <==> rechecks_for(last, position, thresholds, max_load_distance).contains(q) || chebyshev(position, q)
            <= max_load_distance,
{
    let recheck = rechecks_for(last, position, thresholds, max_load_distance);
    let to_load = spec_surroundings(position, max_load_distance);
    let due = pending_changes(position, max_load_distance, recheck, to_load);
    let d = chebyshev(position, q);
    lemma_shells_from(position, 0, max_load_distance, q, d as i32);
    if mentions(due, q) {
        let i = choose|i: int| 0 <= i < due.len() && (#[trigger] due[i]).spec_position() == q;
        if i < recheck.len() {
            assert(recheck[i] == q);
        } else {
            let k = i - recheck.len();
            assert(to_load[k].0 == q);
            lemma_shells_from(position, 0, max_load_distance, q, to_load[k].1);
            assert(to_load.contains(to_load[k]));
        }
    }
    if recheck.contains(q) {
        let i = choose|i: int| 0 <= i < recheck.len() && recheck[i] == q;
        assert(due[i].spec_position() == q);
    }
    if d <= max_load_distance {
        let k = choose|k: int| 0 <= k < to_load.len() && to_load[k] == (q, d as i32);
        assert(due[recheck.len() + k].spec_position() == q);
    }
}

/// After a move from `last` to `position` with nothing left over from
/// earlier moves, the messages that are due are about exactly the
/// positions within the greatest load distance of the old or of the new
/// centre. This holds where no threshold is beyond the greatest load
/// distance and every position that is strictly inside the old range and
/// strictly outside the new one is on a threshold shell of the old centre;
/// a move of one block always is of that kind.
pub proof fn lemma_update_exhaustive(
    last: BlockPosition,
    position: BlockPosition,
    thresholds: Seq<i32>,
    max_load_distance: int,
    q: BlockPosition,
)
    requires
        last.in_range(),
        position.in_range(),
        0 <= max_load_distance <= MAX_RADIUS,
        forall|i: int| 0 <= i < thresholds.len() ==> #[trigger] thresholds[i] <= max_load_distance,
        forall|p: BlockPosition|
            chebyshev(last, p) < max_load_distance && chebyshev(position, p) > max_load_distance ==> exists|i: int|
                0 <= i < thresholds.len() && #[trigger] thresholds[i] == chebyshev(last, p),
    ensures
        mentions(
            pending_changes(
                position,
                max_load_distance,
                rechecks_for(last, position, thresholds, max_load_distance),
                spec_surroundings(position, max_load_distance),
            ),
            q,
        ) <==> chebyshev(last, q) <= max_load_distance || chebyshev(position, q) <= max_load_distance,
{
    lemma_pending_mentions(last, position, thresholds, max_load_distance, q);
    lemma_rechecks_for(last, position, thresholds, max_load_distance, q);
    if chebyshev(last, q) < max_load_distance && chebyshev(position, q) > max_load_distance {
        let i = choose|i: int| 0 <= i < thresholds.len() && #[trigger] thresholds[i] == chebyshev(last, q);
        assert(shifts_shell(last, position, thresholds[i] as int, q));
    }
}

/// A move of one block is of the kind for which the messages after the
/// move cover both ranges: no position is strictly inside the old range
/// and outside the new one.
pub proof fn lemma_step_covers(last: BlockPosition, position: BlockPosition, max_load_distance: int, p: BlockPosition)
    requires
        chebyshev(last, position) <= 1,
    ensures
        !(chebyshev(last, p) < max_load_distance && chebyshev(position, p) > max_load_distance),
{
}

/// Every position on a cube shell around a centre in range is near.
proof fn lemma_diff_near(from: BlockPosition, to: BlockPosition, r: int)
    requires
        from.in_range(),
        to.in_range(),
        r <= MAX_RADIUS,
    ensures
        forall|i: int| 0 <= i < spec_cube_diff(from, to, r).len() ==> near(#[trigger] spec_cube_diff(from, to, r)[i]),
{
    let d = spec_cube_diff(from, to, r);
    assert forall|i: int| 0 <= i < d.len() implies near(#[trigger] d[i]) by {
        lemma_cube_diff(from, to, r, d[i]);
        assert(d.contains(d[i]));
    }
}

fn extend_back(queue: &mut VecDeque<BlockPosition>, items: &Vec<BlockPosition>)
    ensures
        final(queue)@ == old(queue)@ + items@,
{
    let mut i: usize = 0;
    assert(queue@ + items@.take(0) =~= queue@);
    while i < items.len()
        invariant
            i <= items@.len(),
            queue@ == old(queue)@ + items@.take(i as int),
        decreases items@.len() - i,
    {
        queue.push_back(items[i]);
        assert(old(queue)@ + items@.take(i + 1) =~= (old(queue)@ + items@.take(i as int)).push(items@[i as int]));
        i = i + 1;
    }
    assert(items@.take(i as int) =~= items@);
}

} // verus!

//! Levels of detail, and the arbitration between the observers that ask for
//! them.

use crate::block_position::BlockPosition;
use std::collections::HashMap;
use vstd::prelude::*;

verus! {

broadcast use vstd::std_specs::hash::group_hash_axioms;

/// A level of detail at which a block can be meshed.
#[derive(Debug, Copy, Clone, PartialEq, Eq, PartialOrd, Ord, Hash, Structural)]
pub struct LODIndex(pub u32);

/// What an observer asks of a block: that it be solid but not drawn, or
/// that it be meshed at some level of detail. A placeholder is the least
/// demand; among the levels of detail the greater index is the greater
/// demand.
#[derive(Debug, Copy, Clone, PartialEq, Eq, PartialOrd, Ord, Hash, Structural)]
pub enum LOD {
    Placeholder,
    LodIndex(LODIndex),
}

/// Names an observer that asks for blocks.
#[derive(Debug, Copy, Clone, PartialEq, Eq, PartialOrd, Ord, Hash, Structural)]
pub struct OwnerId(pub u32);

impl LOD {
    /// The place of this demand in the order of demands: zero for a
    /// placeholder, and one more than the index for a level of detail.
    pub open spec fn spec_rank(self) -> int {
        match self {
            LOD::Placeholder => 0,
            LOD::LodIndex(i) => i.0 + 1,
        }
    }

    /// The place of this demand in the order of demands.
    pub fn rank(&self) -> (r: u64)
        ensures
            r == self.spec_rank(),
    {
        match self {
            LOD::Placeholder => 0,
            LOD::LodIndex(i) => i.0 as u64 + 1,
        }
    }

    /// Whether this demand is at least as great as the other.
    pub fn at_least(&self, other: &LOD) -> (b: bool)
        ensures
            b == (self.spec_rank() >= other.spec_rank()),
    {
        self.rank() >= other.rank()
    }
}

/// Two demands of the same rank are the same demand.
pub proof fn lemma_rank_injective(a: LOD, b: LOD)
    requires
        a.spec_rank() == b.spec_rank(),
    ensures
        a == b,
{
}

/// What arbitration asks of the loader after a change of the requests for
/// a block: the demand that now wins, if any owner is left, and what the
/// map was last told is loaded.
#[derive(Debug, Copy, Clone, PartialEq, Eq, Structural)]
pub struct LodChange {
    pub desired: Option<LOD>,
    pub loaded: Option<LOD>,
}

/// Whether no owner occurs twice in a list of requests.
pub open spec fn distinct_owners(s: Seq<(OwnerId, LOD)>) -> bool {
    forall|i: int, j: int| 0 <= i < j < s.len() ==> (#[trigger] s[i]).0 != (#[trigger] s[j]).0
}

/// The place of an owner's request in a list of requests, or -1 where the
/// owner has none.
pub open spec fn position_of(s: Seq<(OwnerId, LOD)>, owner: OwnerId) -> int
    decreases s.len(),
{
    if s.len() == 0 {
        -1
    } else if s.last().0 == owner {
        s.len() - 1
    } else {
        position_of(s.drop_last(), owner)
    }
}

/// What an owner requests, if anything.
pub open spec fn lod_of(s: Seq<(OwnerId, LOD)>, owner: OwnerId) -> Option<LOD> {
    if position_of(s, owner) >= 0 {
        Some(s[position_of(s, owner)].1)
    } else {
        None
    }
}

/// The greatest demand among the requests, if there are any.
pub open spec fn max_lod(s: Seq<(OwnerId, LOD)>) -> Option<LOD>
    decreases s.len(),
{
    if s.len() == 0 {
        None
    } else {
        match max_lod(s.drop_last()) {
            None => Some(s.last().1),
            Some(m) => if s.last().1.spec_rank() > m.spec_rank() {
                Some(s.last().1)
            } else {
                Some(m)
            },
        }
    }
}

/// The requests after an owner has asked for a level of detail: the
/// owner's earlier request is overwritten in place, and a new owner joins
/// at the end.
pub open spec fn with_request(s: Seq<(OwnerId, LOD)>, owner: OwnerId, lod: LOD) -> Seq<(OwnerId, LOD)> {
    if position_of(s, owner) >= 0 {
        s.update(position_of(s, owner), (owner, lod))
    } else {
        s.push((owner, lod))
    }
}

/// The requests after an owner has withdrawn. The others keep their order.
pub open spec fn without_request(s: Seq<(OwnerId, LOD)>, owner: OwnerId) -> Seq<(OwnerId, LOD)> {
    if position_of(s, owner) >= 0 {
        s.remove(position_of(s, owner))
    } else {
        s
    }
}

/// What is reported when the greatest demand goes from `before` to
/// `after`: nothing where it stays, and otherwise the new greatest demand
/// together with what is loaded.
pub open spec fn change_between(before: Option<LOD>, after: Option<LOD>, loaded: Option<LOD>) -> Option<LodChange> {
    if before == after {
        None
    } else {
        Some(LodChange { desired: after, loaded })
    }
}

/// An owner's request is found at its place, and an owner without a
/// request is nowhere in the list.
pub proof fn lemma_position_of(s: Seq<(OwnerId, LOD)>, owner: OwnerId)
    ensures
        -1 <= position_of(s, owner) < s.len(),
        position_of(s, owner) >= 0 ==> s[position_of(s, owner)].0 == owner,
        position_of(s, owner) < 0 ==> forall|i: int| 0 <= i < s.len() ==> (#[trigger] s[i]).0 != owner,
    decreases s.len(),
{
    if s.len() > 0 && s.last().0 != owner {
        lemma_position_of(s.drop_last(), owner);
        assert forall|i: int| 0 <= i < s.len() && position_of(s, owner) < 0 implies (#[trigger] s[i]).0 != owner by {
            if i < s.len() - 1 {
                assert(s.drop_last()[i] == s[i]);
            }
        }
    }
}

/// Where no owner occurs twice, the place of an owner's request is the
/// one place where the owner occurs.
pub proof fn lemma_position_unique(s: Seq<(OwnerId, LOD)>, owner: OwnerId, i: int)
    requires
        distinct_owners(s),
        0 <= i < s.len(),
        s[i].0 == owner,
    ensures
        position_of(s, owner) == i,
    decreases s.len(),
{
    if s.last().0 != owner {
        assert(s.drop_last()[i] == s[i]);
        lemma_position_unique(s.drop_last(), owner, i);
    }
}

/// The greatest demand is one of the requests, and no request is greater.
/// There is none only where there are no requests.
pub proof fn lemma_max_lod(s: Seq<(OwnerId, LOD)>)
    ensures
        max_lod(s) is None <==> s.len() == 0,
        max_lod(s) matches Some(m) ==> {
            &&& exists|i: int| 0 <= i < s.len() && (#[trigger] s[i]).1 == m
            &&& forall|i: int| 0 <= i < s.len() ==> (#[trigger] s[i]).1.spec_rank() <= m.spec_rank()
        },
    decreases s.len(),
{
    if s.len() > 0 {
        let t = s.drop_last();
        lemma_max_lod(t);
        let m = max_lod(s)->Some_0;
        match max_lod(t) {
            None => {
                assert(s[s.len() - 1].1 == m);
            },
            Some(x) => {
                if s.last().1.spec_rank() > x.spec_rank() {
                    assert(s[s.len() - 1].1 == m);
                } else {
                    let i = choose|i: int| 0 <= i < t.len() && (#[trigger] t[i]).1 == x;
                    assert(s[i].1 == m);
                }
                assert forall|i: int| 0 <= i < s.len() implies (#[trigger] s[i]).1.spec_rank() <= m.spec_rank() by {
                    if i < t.len() {
                        assert(t[i] == s[i]);
                    }
                }
            },
        }
    }
}

fn find_owner(v: &Vec<(OwnerId, LOD)>, owner: OwnerId) -> (found: Option<usize>)
    requires
        distinct_owners(v@),
    ensures
        found matches Some(i) ==> i < v@.len() && i == position_of(v@, owner),
        found is None ==> position_of(v@, owner) < 0,
{
    let mut i: usize = 0;
    while i < v.len()
        invariant
            i <= v@.len(),
            distinct_owners(v@),
            forall|j: int| 0 <= j < i ==> (#[trigger] v@[j]).0 != owner,
        decreases v@.len() - i,
    {
        if v[i].0 == owner {
            proof {
                lemma_position_unique(v@, owner, i as int);
            }
            return Some(i);
        }
        i = i + 1;
    }
    proof {
        lemma_position_of(v@, owner);
    }
    None
}

fn greatest(v: &Vec<(OwnerId, LOD)>) -> (m: Option<LOD>)
    ensures
        m == max_lod(v@),
{
    let mut m: Option<LOD> = None;
    let mut i: usize = 0;
    assert(v@.take(0) =~= Seq::empty());
    while i < v.len()
        invariant
            i <= v@.len(),
            m == max_lod(v@.take(i as int)),
        decreases v@.len() - i,
    {
        let lod = v[i].1;
        proof {
            assert(v@.take(i + 1).drop_last() =~= v@.take(i as int));
        }
        m = match m {
            None => Some(lod),
            Some(x) => if lod.rank() > x.rank() {
                Some(lod)
            } else {
                Some(x)
            },
        };
        i = i + 1;
    }
    assert(v@.take(i as int) =~= v@);
    m
}

fn same_lod(a: Option<LOD>, b: Option<LOD>) -> (same: bool)
    ensures
        same == (a == b),
{
    match (a, b) {
        (None, None) => true,
        (Some(x), Some(y)) => x == y,
        _ => false,
    }
}

/// Asking for a level of detail keeps the owners distinct.
pub proof fn lemma_with_request_distinct(s: Seq<(OwnerId, LOD)>, owner: OwnerId, lod: LOD)
    requires
        distinct_owners(s),
    ensures
        distinct_owners(with_request(s, owner, lod)),
        with_request(s, owner, lod).len() > 0,
        lod_of(with_request(s, owner, lod), owner) == Some(lod),
{
    lemma_position_of(s, owner);
    let t = with_request(s, owner, lod);
    let i = position_of(s, owner);
    if i >= 0 {
        assert forall|a: int, b: int| 0 <= a < b < t.len() implies (#[trigger] t[a]).0 != (#[trigger] t[b]).0 by {
            assert(t[a].0 == s[a].0 && t[b].0 == s[b].0);
        }
        lemma_position_unique(t, owner, i);
    } else {
        assert forall|a: int, b: int| 0 <= a < b < t.len() implies (#[trigger] t[a]).0 != (#[trigger] t[b]).0 by {
            if b < s.len() {
                assert(t[a] == s[a] && t[b] == s[b]);
            } else {
                assert(t[a] == s[a]);
            }
        }
        lemma_position_unique(t, owner, s.len() as int);
    }
}

/// Withdrawing keeps the owners distinct, and the owner is gone.
pub proof fn lemma_without_request_distinct(s: Seq<(OwnerId, LOD)>, owner: OwnerId)
    requires
        distinct_owners(s),
    ensures
        distinct_owners(without_request(s, owner)),
        lod_of(without_request(s, owner), owner) is None,
{
    lemma_position_of(s, owner);
    let t = without_request(s, owner);
    let i = position_of(s, owner);
    if i >= 0 {
        assert forall|a: int, b: int| 0 <= a < b < t.len() implies (#[trigger] t[a]).0 != (#[trigger] t[b]).0 by {
            let a2 = if a < i { a } else { a + 1 };
            let b2 = if b < i { b } else { b + 1 };
            assert(t[a] == s[a2] && t[b] == s[b2]);
        }
        assert forall|a: int| 0 <= a < t.len() implies (#[trigger] t[a]).0 != owner by {
            let a2 = if a < i { a } else { a + 1 };
            assert(t[a] == s[a2]);
            if a2 < i {
                assert(s[a2].0 != s[i].0);
            } else {
                assert(s[i].0 != s[a2].0);
            }
        }
        lemma_position_of(t, owner);
    }
}

/// What an owner asks for after a request has been recorded: the new
/// request, for the owner that made it, and for every other owner what it
/// asked for before.
pub proof fn lemma_lod_of_with_request(s: Seq<(OwnerId, LOD)>, owner: OwnerId, lod: LOD, other: OwnerId)
    requires
        distinct_owners(s),
    ensures
        lod_of(with_request(s, owner, lod), other) == (if other == owner {
            Some(lod)
        } else {
            lod_of(s, other)
        }),
{
    lemma_with_request_distinct(s, owner, lod);
    if other != owner {
        let t = with_request(s, owner, lod);
        let i = position_of(s, owner);
        let j = position_of(s, other);
        lemma_position_of(s, owner);
        lemma_position_of(s, other);
        lemma_position_of(t, other);
        if j >= 0 {
            assert(t[j] == s[j]);
            lemma_position_unique(t, other, j);
        } else {
            let k = position_of(t, other);
            if k >= 0 {
                if k < s.len() {
                    assert(t[k].0 == s[k].0);
                }
            }
        }
    }
}

/// What an owner asks for after a request has been withdrawn: nothing,
/// for the owner that withdrew, and for every other owner what it asked for
/// before.
pub proof fn lemma_lod_of_without_request(s: Seq<(OwnerId, LOD)>, owner: OwnerId, other: OwnerId)
    requires
        distinct_owners(s),
    ensures
        lod_of(without_request(s, owner), other) == (if other == owner {
            None
        } else {
            lod_of(s, other)
        }),
{
    lemma_without_request_distinct(s, owner);
    if other != owner {
        let t = without_request(s, owner);
        let i = position_of(s, owner);
        let j = position_of(s, other);
        lemma_position_of(s, owner);
        lemma_position_of(s, other);
        lemma_position_of(t, other);
        if i >= 0 {
            if j >= 0 {
                let j2 = if j < i { j } else { j - 1 };
                assert(t[j2] == s[j]);
                lemma_position_unique(t, other, j2);
            } else {
                let k = position_of(t, other);
                if k >= 0 {
                    let k2 = if k < i { k } else { k + 1 };
                    assert(t[k] == s[k2]);
                }
            }
        }
    }
}

/// Asking twice for the same thing is asking once: the second request
/// leaves the requests as they are, and so the greatest demand, and nothing
/// is reported for it.
pub proof fn lemma_insert_twice(s: Seq<(OwnerId, LOD)>, owner: OwnerId, lod: LOD, loaded: Option<LOD>)
    requires
        distinct_owners(s),
    ensures
        with_request(with_request(s, owner, lod), owner, lod) == with_request(s, owner, lod),
        change_between(
            max_lod(with_request(s, owner, lod)),
            max_lod(with_request(with_request(s, owner, lod), owner, lod)),
            loaded,
        ) is None,
{
    let t = with_request(s, owner, lod);
    lemma_with_request_distinct(s, owner, lod);
    lemma_position_of(t, owner);
    assert(with_request(t, owner, lod) =~= t);
}

/// Withdrawing twice is withdrawing once: the second time nothing changes,
/// and nothing is reported.
pub proof fn lemma_remove_twice(s: Seq<(OwnerId, LOD)>, owner: OwnerId, loaded: Option<LOD>)
    requires
        distinct_owners(s),
    ensures
        without_request(without_request(s, owner), owner) == without_request(s, owner),
        change_between(
            max_lod(without_request(s, owner)),
            max_lod(without_request(without_request(s, owner), owner)),
            loaded,
        ) is None,
{
    lemma_without_request_distinct(s, owner);
}

/// One step of the history of a block: an owner asks for a level of
/// detail, or withdraws.
pub enum Request {
    Insert(OwnerId, LOD),
    Remove(OwnerId),
}

/// The requests for a block that started without owners, after a history
/// of asking and withdrawing.
pub open spec fn requests_after(history: Seq<Request>) -> Seq<(OwnerId, LOD)>
    decreases history.len(),
{
    if history.len() == 0 {
        Seq::empty()
    } else {
        match history.last() {
            Request::Insert(owner, lod) => with_request(requests_after(history.drop_last()), owner, lod),
            Request::Remove(owner) => without_request(requests_after(history.drop_last()), owner),
        }
    }
}

/// What an owner claims after a history: what it last asked for, unless
/// it has withdrawn since.
pub open spec fn claim_after(history: Seq<Request>, owner: OwnerId) -> Option<LOD>
    decreases history.len(),
{
    if history.len() == 0 {
        None
    } else {
        match history.last() {
            Request::Insert(o, lod) => if o == owner {
                Some(lod)
            } else {
                claim_after(history.drop_last(), owner)
            },
            Request::Remove(o) => if o == owner {
                None
            } else {
                claim_after(history.drop_last(), owner)
            },
        }
    }
}

/// What is reported for the last step of a history, for a block of which
/// the map holds `loaded` to be loaded: the change of the greatest demand
/// that the step brings, if it brings one.
pub open spec fn reported_after(history: Seq<Request>, loaded: Option<LOD>) -> Option<LodChange>
    recommends
        history.len() > 0,
{
    change_between(max_lod(requests_after(history.drop_last())), max_lod(requests_after(history)), loaded)
}

/// What is reported for the last step of a history is what is reported
/// when the request of that step is recorded or withdrawn.
pub proof fn lemma_reported_after(history: Seq<Request>, loaded: Option<LOD>)
    requires
        history.len() > 0,
    ensures
        reported_after(history, loaded) == (match history.last() {
            Request::Insert(owner, lod) => change_between(
                max_lod(requests_after(history.drop_last())),
                max_lod(with_request(requests_after(history.drop_last()), owner, lod)),
                loaded,
            ),
            Request::Remove(owner) => change_between(
                max_lod(requests_after(history.drop_last())),
                max_lod(without_request(requests_after(history.drop_last()), owner)),
                loaded,
            ),
        }),
{
}

/// After any history of asking and withdrawing, the requests hold for every
/// owner what it claims, and the demand to load is the greatest claim: it
/// is the claim of some owner, and no owner claims more. There is none
/// only where no owner claims anything.
pub proof fn lemma_arbitration(history: Seq<Request>, owner: OwnerId)
    ensures
        distinct_owners(requests_after(history)),
        lod_of(requests_after(history), owner) == claim_after(history, owner),
        max_lod(requests_after(history)) matches Some(m) ==> (exists|o: OwnerId| claim_after(history, o) == Some(m)),
        (max_lod(requests_after(history)), claim_after(history, owner)) matches (Some(m), Some(l)) ==> l.spec_rank()
            <= m.spec_rank(),
        claim_after(history, owner) is Some ==> max_lod(requests_after(history)) is Some,
    decreases history.len(),
{
    let s = requests_after(history);
    if history.len() > 0 {
        let before = requests_after(history.drop_last());
        lemma_arbitration(history.drop_last(), owner);
        match history.last() {
            Request::Insert(o, lod) => {
                lemma_with_request_distinct(before, o, lod);
                lemma_lod_of_with_request(before, o, lod, owner);
            },
            Request::Remove(o) => {
                lemma_without_request_distinct(before, o);
                lemma_lod_of_without_request(before, o, owner);
            },
        }
    }
    lemma_max_lod(s);
    lemma_position_of(s, owner);
    if max_lod(s) is Some {
        let m = max_lod(s)->Some_0;
        let i = choose|i: int| 0 <= i < s.len() && (#[trigger] s[i]).1 == m;
        lemma_position_unique(s, s[i].0, i);
        lemma_claims(history, s[i].0);
        assert(claim_after(history, s[i].0) == Some(m));
    }
}

/// After any history, the requests hold for an owner what it claims.
proof fn lemma_claims(history: Seq<Request>, owner: OwnerId)
    ensures
        distinct_owners(requests_after(history)),
        lod_of(requests_after(history), owner) == claim_after(history, owner),
    decreases history.len(),
{
    if history.len() > 0 {
        let before = requests_after(history.drop_last());
        lemma_claims(history.drop_last(), owner);
        match history.last() {
            Request::Insert(o, lod) => {
                lemma_with_request_distinct(before, o, lod);
                lemma_lod_of_with_request(before, o, lod, owner);
            },
            Request::Remove(o) => {
                lemma_without_request_distinct(before, o);
                lemma_lod_of_without_request(before, o, owner);
            },
        }
    }
}

/// The requests for one block, and what the map was last told is loaded
/// there.
struct BlockLods {
    owner_lods: Vec<(OwnerId, LOD)>,
    loaded: Option<LOD>,
    /// Every demand that has been reported as the one to load since the
    /// block was last without an owner.
    reported: Ghost<Set<LOD>>,
}

impl BlockLods {
    spec fn wf(self) -> bool {
        &&& self.owner_lods@.len() > 0
        &&& distinct_owners(self.owner_lods@)
        &&& max_lod(self.owner_lods@) matches Some(d) ==> self.reported@.contains(d)
        &&& self.loaded matches Some(l) ==> self.reported@.contains(l)
    }
}

/// For every block, the level of detail that each of its owners asks for,
/// and what was last loaded for it. The greatest demand among the owners
/// of a block is the one to load.
pub struct LODMap {
    blocks: HashMap<u128, BlockLods>,
    /// The requests for a block without owners.
    none: Vec<(OwnerId, LOD)>,
}

impl LODMap {
    /// Every block that the map knows has an owner, no owner has two requests
    /// for one block, and what is loaded or to load for a block has been
    /// reported.
    pub closed spec fn wf(self) -> bool {
        &&& self.none@.len() == 0
        &&& forall|k: u128| self.blocks@.contains_key(k) ==> (#[trigger] self.blocks@[k]).wf()
    }

    /// The requests for a block, in the order in which their owners first
    /// asked. Empty for a block without owners.
    pub closed spec fn requests(self, p: BlockPosition) -> Seq<(OwnerId, LOD)> {
        if self.blocks@.contains_key(p.spec_key()) {
            self.blocks@[p.spec_key()].owner_lods@
        } else {
            Seq::empty()
        }
    }

    /// What the map was last told is loaded for a block. Nothing for a block
    /// without owners.
    pub closed spec fn loaded(self, p: BlockPosition) -> Option<LOD> {
        if self.blocks@.contains_key(p.spec_key()) {
            self.blocks@[p.spec_key()].loaded
        } else {
            None
        }
    }

    /// Every demand that has been reported as the one to load for a block
    /// since the block was last without an owner.
    pub closed spec fn reported(self, p: BlockPosition) -> Set<LOD> {
        if self.blocks@.contains_key(p.spec_key()) {
            self.blocks@[p.spec_key()].reported@
        } else {
            Set::empty()
        }
    }

    /// The demand to load for a block: the greatest among its owners'.
    pub open spec fn desired(self, p: BlockPosition) -> Option<LOD> {
        max_lod(self.requests(p))
    }

    /// Whether two maps agree on every block but one.
    pub open spec fn same_elsewhere(self, other: LODMap, p: BlockPosition) -> bool {
        forall|q: BlockPosition|
            #![trigger self.requests(q)]
            #![trigger self.loaded(q)]
            #![trigger self.reported(q)]
            q != p ==> self.requests(q) == other.requests(q) && self.loaded(q) == other.loaded(q) && self.reported(q)
                == other.reported(q)
    }

    /// Maps that agree with the same map on every block but one agree with
    /// each other on every block but that one.
    pub proof fn lemma_same_elsewhere_chain(self, middle: LODMap, first: LODMap, p: BlockPosition)
        requires
            self.same_elsewhere(middle, p),
            middle.same_elsewhere(first, p),
        ensures
            self.same_elsewhere(first, p),
    {
        assert forall|q: BlockPosition| q != p implies self.requests(q) == first.requests(q) && self.loaded(q)
            == first.loaded(q) && self.reported(q) == first.reported(q) by {
            assert(self.requests(q) == middle.requests(q));
            assert(middle.requests(q) == first.requests(q));
        }
    }

    /// What holds of every block of a well-formed map: no owner has two
    /// requests, and what is loaded, like what is to load, has been
    /// reported.
    pub proof fn lemma_wf(self, p: BlockPosition)
        requires
            self.wf(),
        ensures
            distinct_owners(self.requests(p)),
            self.desired(p) matches Some(d) ==> self.reported(p).contains(d),
            self.loaded(p) matches Some(l) ==> self.reported(p).contains(l),
            self.requests(p).len() == 0 ==> self.loaded(p) is None && self.reported(p) == Set::<LOD>::empty(),
    {
        if self.blocks@.contains_key(p.spec_key()) {
            assert(self.blocks@[p.spec_key()].wf());
        }
    }

    /// A map without requests.
    pub fn new() -> (m: LODMap)
        ensures
            m.wf(),
            forall|p: BlockPosition| #[trigger] m.requests(p) == Seq::<(OwnerId, LOD)>::empty(),
            forall|p: BlockPosition| #[trigger] m.loaded(p) is None,
            forall|p: BlockPosition| #[trigger] m.reported(p) == Set::<LOD>::empty(),
    {
        LODMap { blocks: HashMap::new(), none: Vec::new() }
    }

    /// What an owner asks for at a position, if anything, and all the
    /// requests for that position.
    pub fn get(&self, position: &BlockPosition, owner: OwnerId) -> (r: (Option<LOD>, &[(OwnerId, LOD)]))
        requires
            self.wf(),
        ensures
            r.0 == lod_of(self.requests(*position), owner),
            r.1@ == self.requests(*position),
    {
        let key = position.key();
        match self.blocks.get(&key) {
            Some(entry) => {
                assert(self.blocks@[key].wf());
                let prev = match find_owner(&entry.owner_lods, owner) {
                    Some(i) => Some(entry.owner_lods[i].1),
                    None => None,
                };
                (prev, entry.owner_lods.as_slice())
            },
            None => {
                (None, self.none.as_slice())
            },
        }
    }

    /// The demand to load for a block.
    pub fn get_desired(&self, position: &BlockPosition) -> (d: Option<LOD>)
        ensures
            d == self.desired(*position),
    {
        let key = position.key();
        match self.blocks.get(&key) {
            Some(entry) => greatest(&entry.owner_lods),
            None => None,
        }
    }

    /// What the map was last told is loaded for a block.
    pub fn get_loaded(&self, position: &BlockPosition) -> (l: Option<LOD>)
        ensures
            l == self.loaded(*position),
    {
        let key = position.key();
        match self.blocks.get(&key) {
            Some(entry) => entry.loaded,
            None => None,
        }
    }

    /// Acquire or update an owner's handle on a position. Returns the
    /// owner's previous request and, where the greatest demand for the
    /// position changes, the change.
    pub fn insert(&mut self, position: BlockPosition, lod: LOD, owner: OwnerId) -> (r: (
        Option<LOD>,
        Option<LodChange>,
    ))
        requires
            old(self).wf(),
        ensures
            final(self).wf(),
            final(self).requests(position) == with_request(old(self).requests(position), owner, lod),
            final(self).loaded(position) == old(self).loaded(position),
            final(self).reported(position) == (match r.1 {
                Some(c) => old(self).reported(position).insert(c.desired->Some_0),
                None => old(self).reported(position),
            }),
            final(self).same_elsewhere(*old(self), position),
            r.0 == lod_of(old(self).requests(position), owner),
            r.1 == change_between(old(self).desired(position), final(self).desired(position), old(self).loaded(position)),
    {
        let key = position.key();
        let ghost before_map = *self;
        let mut entry = match self.blocks.remove(&key) {
            Some(entry) => entry,
            None => BlockLods { owner_lods: Vec::new(), loaded: None, reported: Ghost(Set::empty()) },
        };
        assert(distinct_owners(entry.owner_lods@)) by {
            if before_map.blocks@.contains_key(key) {
                assert(before_map.blocks@[key].wf());
            }
        }
        let ghost requests = entry.owner_lods@;
        assert(requests == before_map.requests(position));
        let before = greatest(&entry.owner_lods);
        let prev = match find_owner(&entry.owner_lods, owner) {
            Some(i) => {
                let prev = entry.owner_lods[i].1;
                entry.owner_lods.set(i, (owner, lod));
                Some(prev)
            },
            None => {
                entry.owner_lods.push((owner, lod));
                None
            },
        };
        proof {
            lemma_with_request_distinct(requests, owner, lod);
            lemma_max_lod(entry.owner_lods@);
        }
        let after = greatest(&entry.owner_lods);
        let change = if same_lod(before, after) {
            None
        } else {
            entry.reported = Ghost(entry.reported@.insert(after->Some_0));
            Some(LodChange { desired: after, loaded: entry.loaded })
        };
        assert(entry.wf()) by {
            if before_map.blocks@.contains_key(key) {
                assert(before_map.blocks@[key].wf());
            }
        }
        self.blocks.insert(key, entry);
        proof {
            assert forall|q: BlockPosition| q != position implies #[trigger] self.requests(q) == before_map.requests(q)
                && self.loaded(q) == before_map.loaded(q) && self.reported(q) == before_map.reported(q) by {
                if q.spec_key() == key {
                    q.lemma_key_injective(position);
                }
            }
            assert forall|k: u128| self.blocks@.contains_key(k) implies (#[trigger] self.blocks@[k]).wf() by {
                if k != key {
                    assert(before_map.blocks@[k].wf());
                }
            }
        }
        (prev, change)
    }

    /// Release an owner's handle on a position. Returns the owner's request
    /// and, where the greatest demand for the position changes, the change.
    /// A block whose last owner leaves is forgotten, with what was loaded
    /// for it.
    pub fn remove(&mut self, position: BlockPosition, owner: OwnerId) -> (r: (Option<LOD>, Option<LodChange>))
        requires
            old(self).wf(),
        ensures
            final(self).wf(),
            final(self).requests(position) == without_request(old(self).requests(position), owner),
            final(self).loaded(position) == (if final(self).requests(position).len() == 0 {
                None
            } else {
                old(self).loaded(position)
            }),
            final(self).reported(position) == (if final(self).requests(position).len() == 0 {
                Set::empty()
            } else {
                match r.1 {
                    Some(c) => old(self).reported(position).insert(c.desired->Some_0),
                    None => old(self).reported(position),
                }
            }),
            final(self).same_elsewhere(*old(self), position),
            r.0 == lod_of(old(self).requests(position), owner),
            r.1 == change_between(old(self).desired(position), final(self).desired(position), old(self).loaded(position)),
    {
        let key = position.key();
        let ghost before_map = *self;
        let mut entry = match self.blocks.remove(&key) {
            Some(entry) => entry,
            None => {
                proof {
                    assert forall|q: BlockPosition| q != position implies #[trigger] self.requests(q)
                        == before_map.requests(q) && self.loaded(q) == before_map.loaded(q) && self.reported(q)
                        == before_map.reported(q) by {}
                    assert(self.blocks@ =~= before_map.blocks@);
                }
                return (None, None);
            },
        };
        assert(before_map.blocks@[key].wf());
        let ghost requests = entry.owner_lods@;
        let before = greatest(&entry.owner_lods);
        let prev = match find_owner(&entry.owner_lods, owner) {
            Some(i) => {
                let removed = entry.owner_lods.remove(i);
                Some(removed.1)
            },
            None => None,
        };
        proof {
            lemma_without_request_distinct(requests, owner);
            lemma_max_lod(entry.owner_lods@);
            lemma_max_lod(requests);
        }
        let after = greatest(&entry.owner_lods);
        let change = if same_lod(before, after) {
            None
        } else {
            if after.is_some() {
                entry.reported = Ghost(entry.reported@.insert(after->Some_0));
            }
            Some(LodChange { desired: after, loaded: entry.loaded })
        };
        if entry.owner_lods.len() > 0 {
            assert(entry.wf());
            self.blocks.insert(key, entry);
        }
        proof {
            assert forall|q: BlockPosition| q != position implies #[trigger] self.requests(q) == before_map.requests(q)
                && self.loaded(q) == before_map.loaded(q) && self.reported(q) == before_map.reported(q) by {
                if q.spec_key() == key {
                    q.lemma_key_injective(position);
                }
            }
            assert forall|k: u128| self.blocks@.contains_key(k) implies (#[trigger] self.blocks@[k]).wf() by {
                if k != key {
                    assert(before_map.blocks@[k].wf());
                }
            }
        }
        (prev, change)
    }

    /// Tell the map that a demand has been loaded for a block. The map
    /// takes note only where that demand is the one to load for the block
    /// and is not the one loaded already; it then returns the demand
    /// together with what was loaded before.
    pub fn set_loaded(&mut self, position: BlockPosition, lod: LOD) -> (change: Option<LodChange>)
        requires
            old(self).wf(),
        ensures
            final(self).wf(),
            change == (if old(self).desired(position) == Some(lod) && old(self).loaded(position) != Some(lod) {
                Some(LodChange { desired: Some(lod), loaded: old(self).loaded(position) })
            } else {
                None
            }),
            final(self).loaded(position) == (if change is Some {
                Some(lod)
            } else {
                old(self).loaded(position)
            }),
            final(self).requests(position) == old(self).requests(position),
            final(self).reported(position) == old(self).reported(position),
            final(self).same_elsewhere(*old(self), position),
    {
        let key = position.key();
        let ghost before_map = *self;
        proof {
            assert forall|q: BlockPosition| q != position implies #[trigger] self.requests(q) == before_map.requests(q)
                && self.loaded(q) == before_map.loaded(q) && self.reported(q) == before_map.reported(q) by {}
        }
        let mut entry = match self.blocks.remove(&key) {
            Some(entry) => entry,
            None => {
                assert(self.blocks@ =~= before_map.blocks@);
                return None;
            },
        };
        assert(before_map.blocks@[key].wf());
        let desired = greatest(&entry.owner_lods);
        let previous = entry.loaded;
        let fresh = same_lod(desired, Some(lod)) && !same_lod(previous, Some(lod));
        if fresh {
            entry.loaded = Some(lod);
        }
        assert(entry.wf());
        self.blocks.insert(key, entry);
        proof {
            assert forall|q: BlockPosition| q != position implies #[trigger] self.requests(q) == before_map.requests(q)
                && self.loaded(q) == before_map.loaded(q) && self.reported(q) == before_map.reported(q) by {
                if q.spec_key() == key {
                    q.lemma_key_injective(position);
                }
            }
            assert forall|k: u128| self.blocks@.contains_key(k) implies (#[trigger] self.blocks@[k]).wf() by {
                if k != key {
                    assert(before_map.blocks@[k].wf());
                }
            }
        }
        if fresh {
            Some(LodChange { desired: Some(lod), loaded: previous })
        } else {
            None
        }
    }

    /// Tell the map that nothing is loaded for a block any more. Returns
    /// what was loaded.
    pub fn clear_loaded(&mut self, position: BlockPosition) -> (previous: Option<LOD>)
        requires
            old(self).wf(),
        ensures
            final(self).wf(),
            previous == old(self).loaded(position),
            final(self).loaded(position) is None,
            final(self).requests(position) == old(self).requests(position),
            final(self).reported(position) == old(self).reported(position),
            final(self).same_elsewhere(*old(self), position),
    {
        let key = position.key();
        let ghost before_map = *self;
        proof {
            assert forall|q: BlockPosition| q != position implies #[trigger] self.requests(q) == before_map.requests(q)
                && self.loaded(q) == before_map.loaded(q) && self.reported(q) == before_map.reported(q) by {}
        }
        let mut entry = match self.blocks.remove(&key) {
            Some(entry) => entry,
            None => {
                assert(self.blocks@ =~= before_map.blocks@);
                return None;
            },
        };
        assert(before_map.blocks@[key].wf());
        let previous = entry.loaded;
        entry.loaded = None;
        assert(entry.wf());
        self.blocks.insert(key, entry);
        proof {
            assert forall|q: BlockPosition| q != position implies #[trigger] self.requests(q) == before_map.requests(q)
                && self.loaded(q) == before_map.loaded(q) && self.reported(q) == before_map.reported(q) by {
                if q.spec_key() == key {
                    q.lemma_key_injective(position);
                }
            }
            assert forall|k: u128| self.blocks@.contains_key(k) implies (#[trigger] self.blocks@[k]).wf() by {
                if k != key {
                    assert(before_map.blocks@[k].wf());
                }
            }
        }
        previous
    }
}

} // verus!

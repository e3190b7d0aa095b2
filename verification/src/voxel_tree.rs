//! A sparse octree of voxels.
//!
//! The tree is centred on the origin: a tree of size `lg_size` reaches two to
//! the power `lg_size` world units along every axis in both directions. Every
//! branch splits its cube in eight, so a voxel of any size that fits in the
//! tree has exactly one slot.

use crate::voxel::{Bounds, Voxel};
use vstd::arithmetic::power2::{lemma_pow2_pos, lemma_pow2_unfold, pow2};
use vstd::prelude::*;

verus! {

/// The smallest voxel size (as a base-2 logarithm) that a tree stores.
pub const MIN_LG_SIZE: i16 = -15;

/// The largest voxel size (as a base-2 logarithm) that a tree stores.
pub const MAX_LG_SIZE: i16 = 16;

/// The largest size (as a base-2 logarithm) that a tree grows to. A tree of
/// this size holds every voxel whose size is in range.
pub const MAX_TREE_LG_SIZE: i32 = 47;

/// A node of the tree: nothing, a voxel, or eight smaller nodes.
pub enum TreeBody {
    Empty,
    Leaf(Voxel),
    Branch(Box<Branches>),
}

/// The eight children of a branch, named by the half of the cube they cover
/// along x, y and z: `l` for the low half and `h` for the high half.
pub struct Branches {
    pub lll: TreeBody,
    pub llh: TreeBody,
    pub lhl: TreeBody,
    pub lhh: TreeBody,
    pub hll: TreeBody,
    pub hlh: TreeBody,
    pub hhl: TreeBody,
    pub hhh: TreeBody,
}

/// The number of the child that covers the given halves.
pub open spec fn octant(high_x: bool, high_y: bool, high_z: bool) -> int {
    (if high_x { 4int } else { 0 }) + (if high_y { 2int } else { 0 }) + (if high_z { 1int } else { 0 })
}

impl Branches {
    /// Eight empty children.
    pub open spec fn spec_empty() -> Branches {
        Branches {
            lll: TreeBody::Empty,
            llh: TreeBody::Empty,
            lhl: TreeBody::Empty,
            lhh: TreeBody::Empty,
            hll: TreeBody::Empty,
            hlh: TreeBody::Empty,
            hhl: TreeBody::Empty,
            hhh: TreeBody::Empty,
        }
    }

    /// Eight empty children.
    pub fn empty() -> (b: Branches)
        ensures
            b == Branches::spec_empty(),
    {
        Branches {
            lll: TreeBody::Empty,
            llh: TreeBody::Empty,
            lhl: TreeBody::Empty,
            lhh: TreeBody::Empty,
            hll: TreeBody::Empty,
            hlh: TreeBody::Empty,
            hhl: TreeBody::Empty,
            hhh: TreeBody::Empty,
        }
    }

    /// The child with the given number.
    pub open spec fn child(self, i: int) -> TreeBody {
        if i == 0 {
            self.lll
        } else if i == 1 {
            self.llh
        } else if i == 2 {
            self.lhl
        } else if i == 3 {
            self.lhh
        } else if i == 4 {
            self.hll
        } else if i == 5 {
            self.hlh
        } else if i == 6 {
            self.hhl
        } else {
            self.hhh
        }
    }

    /// These branches with the child of the given number replaced.
    pub open spec fn with_child(self, i: int, c: TreeBody) -> Branches {
        if i == 0 {
            Branches { lll: c, ..self }
        } else if i == 1 {
            Branches { llh: c, ..self }
        } else if i == 2 {
            Branches { lhl: c, ..self }
        } else if i == 3 {
            Branches { lhh: c, ..self }
        } else if i == 4 {
            Branches { hll: c, ..self }
        } else if i == 5 {
            Branches { hlh: c, ..self }
        } else if i == 6 {
            Branches { hhl: c, ..self }
        } else {
            Branches { hhh: c, ..self }
        }
    }

    /// The slot of the voxel at `(x, y, z)`, where these branches split the
    /// cube whose low corner is `(ox, oy, oz)` and whose children are two to
    /// the power `level` voxels wide. A slot that is not there yet reads as
    /// empty.
    pub open spec fn slot(self, x: int, y: int, z: int, ox: int, oy: int, oz: int, level: nat) -> TreeBody
        decreases level,
    {
        let h = pow2(level) as int;
        let c = self.child(octant(x >= ox + h, y >= oy + h, z >= oz + h));
        if level == 0 {
            c
        } else {
            match c {
                TreeBody::Branch(b) => b.slot(
                    x,
                    y,
                    z,
                    if x >= ox + h { ox + h } else { ox },
                    if y >= oy + h { oy + h } else { oy },
                    if z >= oz + h { oz + h } else { oz },
                    (level - 1) as nat,
                ),
                _ => TreeBody::Empty,
            }
        }
    }

    /// These branches with the slot of the voxel at `(x, y, z)` replaced by
    /// `node`. Branches are made on the way down where there are none; a
    /// leaf on the way down gives way to a branch.
    pub open spec fn with_slot(
        self,
        x: int,
        y: int,
        z: int,
        ox: int,
        oy: int,
        oz: int,
        level: nat,
        node: TreeBody,
    ) -> Branches
        decreases level,
    {
        let h = pow2(level) as int;
        let i = octant(x >= ox + h, y >= oy + h, z >= oz + h);
        if level == 0 {
            self.with_child(i, node)
        } else {
            let below = match self.child(i) {
                TreeBody::Branch(b) => *b,
                _ => Branches::spec_empty(),
            };
            self.with_child(
                i,
                TreeBody::Branch(
                    Box::new(
                        below.with_slot(
                            x,
                            y,
                            z,
                            if x >= ox + h { ox + h } else { ox },
                            if y >= oy + h { oy + h } else { oy },
                            if z >= oz + h { oz + h } else { oz },
                            (level - 1) as nat,
                            node,
                        ),
                    ),
                ),
            )
        }
    }

    fn child_ref(&self, high_x: bool, high_y: bool, high_z: bool) -> (c: &TreeBody)
        ensures
            *c == self.child(octant(high_x, high_y, high_z)),
    {
        if high_x {
            if high_y {
                if high_z { &self.hhh } else { &self.hhl }
            } else {
                if high_z { &self.hlh } else { &self.hll }
            }
        } else {
            if high_y {
                if high_z { &self.lhh } else { &self.lhl }
            } else {
                if high_z { &self.llh } else { &self.lll }
            }
        }
    }

    fn child_mut(&mut self, high_x: bool, high_y: bool, high_z: bool) -> (c: &mut TreeBody)
        ensures
            *c == old(self).child(octant(high_x, high_y, high_z)),
            *final(self) == old(self).with_child(octant(high_x, high_y, high_z), *final(c)),
    {
        if high_x {
            if high_y {
                if high_z { &mut self.hhh } else { &mut self.hhl }
            } else {
                if high_z { &mut self.hlh } else { &mut self.hll }
            }
        } else {
            if high_y {
                if high_z { &mut self.lhh } else { &mut self.lhl }
            } else {
                if high_z { &mut self.llh } else { &mut self.lll }
            }
        }
    }

    fn slot_mut(&mut self, x: i64, y: i64, z: i64, ox: i64, oy: i64, oz: i64, h: i64, Ghost(level): Ghost<nat>) -> (s: &mut TreeBody)
        requires
            h == pow2(level),
            level <= 62,
            ox <= x < ox + 2 * h,
            oy <= y < oy + 2 * h,
            oz <= z < oz + 2 * h,
            -0x4000_0000_0000_0000 <= ox <= 0x4000_0000_0000_0000 - 2 * h,
            -0x4000_0000_0000_0000 <= oy <= 0x4000_0000_0000_0000 - 2 * h,
            -0x4000_0000_0000_0000 <= oz <= 0x4000_0000_0000_0000 - 2 * h,
        ensures
            *s == old(self).slot(x as int, y as int, z as int, ox as int, oy as int, oz as int, level),
            *final(self) == old(self).with_slot(
                x as int,
                y as int,
                z as int,
                ox as int,
                oy as int,
                oz as int,
                level,
                *final(s),
            ),
        decreases level,
    {
        let high_x = x >= ox + h;
        let high_y = y >= oy + h;
        let high_z = z >= oz + h;
        let c = self.child_mut(high_x, high_y, high_z);
        if h == 1 {
            proof {
                lemma_pow2_pos(level);
                if level > 0 {
                    lemma_pow2_unfold(level);
                    lemma_pow2_pos((level - 1) as nat);
                }
            }
            c
        } else {
            proof {
                vstd::arithmetic::power2::lemma2_to64();
                lemma_pow2_unfold(level);
            }
            let is_branch = match c {
                TreeBody::Branch(_) => true,
                _ => false,
            };
            if !is_branch {
                *c = TreeBody::Branch(Box::new(Branches::empty()));
            }
            match c {
                TreeBody::Branch(b) => b.slot_mut(
                    x,
                    y,
                    z,
                    if high_x { ox + h } else { ox },
                    if high_y { oy + h } else { oy },
                    if high_z { oz + h } else { oz },
                    h / 2,
                    Ghost((level - 1) as nat),
                ),
                _ => vstd::pervasive::unreached(),
            }
        }
    }
}

/// A leaf's voxel, if the node is a leaf.
pub open spec fn leaf_of(node: TreeBody) -> Option<Voxel> {
    match node {
        TreeBody::Leaf(v) => Some(v),
        _ => None,
    }
}

/// A child of a tree that has just grown: what used to be the tree's child
/// in some corner now sits one level down, in the corner of the new child
/// that touches the origin.
pub open spec fn wrapped(c: TreeBody, i: int) -> TreeBody {
    TreeBody::Branch(Box::new(Branches::spec_empty().with_child(i, c)))
}

fn pow2_i64(e: u32) -> (p: i64)
    requires
        e <= 62,
    ensures
        p == pow2(e as nat),
        1 <= p <= 0x4000_0000_0000_0000,
{
    let mut p: i64 = 1;
    let mut i: u32 = 0;
    proof {
        vstd::arithmetic::power2::lemma2_to64();
        vstd::arithmetic::power2::lemma2_to64_rest();
    }
    while i < e
        invariant
            i <= e <= 62,
            p == pow2(i as nat),
            1 <= p,
            p <= pow2(62),
            pow2(62) == 0x4000_0000_0000_0000,
        decreases e - i,
    {
        proof {
            lemma_pow2_unfold((i + 1) as nat);
            if i + 1 < 62 {
                vstd::arithmetic::power2::lemma_pow2_strictly_increases((i + 1) as nat, 62);
            }
        }
        p = p * 2;
        i = i + 1;
    }
    p
}

/// A sparse octree of voxels, centred on the origin.
pub struct VoxelTree {
    /// The tree reaches two to this power in every direction.
    lg_size: i32,
    contents: Branches,
}

impl VoxelTree {
    /// The tree's size is within the range that trees grow in.
    pub open spec fn wf(self) -> bool {
        0 <= self.spec_lg_size() <= MAX_TREE_LG_SIZE
    }

    /// The base-2 logarithm of the distance that the tree reaches from the
    /// origin along every axis.
    pub closed spec fn spec_lg_size(self) -> int {
        self.lg_size as int
    }

    /// Whether the tree has a slot for the voxel: the voxel is no larger than
    /// the tree's children and lies within the tree's reach.
    pub open spec fn holds(self, b: Bounds) -> bool {
        let d = self.spec_lg_size() - b.lg_size;
        &&& d >= 0
        &&& -pow2(d as nat) <= b.x < pow2(d as nat)
        &&& -pow2(d as nat) <= b.y < pow2(d as nat)
        &&& -pow2(d as nat) <= b.z < pow2(d as nat)
    }

    /// The node in the voxel's slot; empty where the tree has no such slot.
    pub closed spec fn slot_of(self, b: Bounds) -> TreeBody {
        if self.holds(b) {
            let d = (self.lg_size - b.lg_size) as nat;
            self.contents.slot(
                b.x as int,
                b.y as int,
                b.z as int,
                -(pow2(d) as int),
                -(pow2(d) as int),
                -(pow2(d) as int),
                d,
            )
        } else {
            TreeBody::Empty
        }
    }

    /// The voxel stored for exactly these bounds, if there is one.
    pub open spec fn leaf(self, b: Bounds) -> Option<Voxel> {
        leaf_of(self.slot_of(b))
    }

    /// The tree with the node in the voxel's slot replaced.
    pub closed spec fn with_slot_of(self, b: Bounds, node: TreeBody) -> VoxelTree {
        let d = (self.lg_size - b.lg_size) as nat;
        VoxelTree {
            lg_size: self.lg_size,
            contents: self.contents.with_slot(
                b.x as int,
                b.y as int,
                b.z as int,
                -(pow2(d) as int),
                -(pow2(d) as int),
                -(pow2(d) as int),
                d,
                node,
            ),
        }
    }

    /// The tree after it has doubled its reach once.
    pub closed spec fn grown(self) -> VoxelTree {
        VoxelTree {
            lg_size: (self.lg_size + 1) as i32,
            contents: Branches {
                lll: wrapped(self.contents.lll, 7),
                llh: wrapped(self.contents.llh, 6),
                lhl: wrapped(self.contents.lhl, 5),
                lhh: wrapped(self.contents.lhh, 4),
                hll: wrapped(self.contents.hll, 3),
                hlh: wrapped(self.contents.hlh, 2),
                hhl: wrapped(self.contents.hhl, 1),
                hhh: wrapped(self.contents.hhh, 0),
            },
        }
    }

    /// The tree after it has doubled its reach as often as it takes to hold
    /// the voxel, and never beyond the largest size.
    pub closed spec fn grown_to_hold(self, b: Bounds) -> VoxelTree
        decreases MAX_TREE_LG_SIZE - self.spec_lg_size(),
    {
        if self.holds(b) || self.lg_size >= MAX_TREE_LG_SIZE {
            self
        } else {
            self.grown().grown_to_hold(b)
        }
    }

    /// An empty tree of the smallest size: it reaches one unit from the
    /// origin, every slot of it is empty, and so it stores no voxel.
    pub fn new() -> (t: VoxelTree)
        ensures
            t.wf(),
            t.spec_lg_size() == 0,
            forall|b: Bounds| #[trigger] t.slot_of(b) == TreeBody::Empty,
            forall|b: Bounds| t.leaf(b) is None,
    {
        let t = VoxelTree { lg_size: 0, contents: Branches::empty() };
        assert forall|b: Bounds| #[trigger] t.slot_of(b) == TreeBody::Empty by {
            if t.holds(b) {
                let o = -(pow2((0 - b.lg_size) as nat) as int);
                lemma_empty_slot(b.x as int, b.y as int, b.z as int, o, o, o, (0 - b.lg_size) as nat);
            }
        }
        t
    }

    /// The base-2 logarithm of the distance that the tree reaches from the
    /// origin along every axis.
    pub fn lg_size(&self) -> (l: i32)
        ensures
            l == self.spec_lg_size(),
    {
        self.lg_size
    }

    /// Whether the tree has a slot for the voxel.
    pub fn contains_bounds(&self, voxel: &Bounds) -> (held: bool)
        requires
            self.wf(),
            MIN_LG_SIZE <= voxel.lg_size <= MAX_LG_SIZE,
        ensures
            held == self.holds(*voxel),
    {
        if (voxel.lg_size as i32) > self.lg_size {
            return false;
        }
        let d: u32 = (self.lg_size - voxel.lg_size as i32) as u32;
        let p = pow2_i64(d);
        let x: i64 = voxel.x as i64;
        let y: i64 = voxel.y as i64;
        let z: i64 = voxel.z as i64;
        -p <= x && x < p && -p <= y && y < p && -p <= z && z < p
    }

    /// Doubling the reach of a tree moves no voxel.
    pub proof fn lemma_leaf_grown(self, b: Bounds)
        requires
            0 <= self.spec_lg_size() < MAX_TREE_LG_SIZE,
        ensures
            self.grown().leaf(b) == self.leaf(b),
            self.grown().spec_lg_size() == self.spec_lg_size() + 1,
            self.holds(b) ==> self.grown().holds(b),
    {
        let g = self.grown();
        let d1 = g.lg_size - b.lg_size;
        let d = d1 - 1;
        let x = b.x as int;
        let y = b.y as int;
        let z = b.z as int;
        if d >= 0 {
            lemma_pow2_unfold(d1 as nat);
        }
        if g.holds(b) {
            let h1 = pow2(d1 as nat) as int;
            let i = octant(x >= 0, y >= 0, z >= 0);
            let w = Branches::spec_empty().with_child(7 - i, self.contents.child(i));
            assert(g.contents.child(i) == TreeBody::Branch(Box::new(w)));
            assert(i == octant(x >= -h1 + h1, y >= -h1 + h1, z >= -h1 + h1));
            if d1 == 0 {
                assert(g.slot_of(b) == g.contents.child(i));
            } else {
                let h = pow2(d as nat) as int;
                let ox1 = if x >= 0 { 0 } else { -h1 };
                let oy1 = if y >= 0 { 0 } else { -h1 };
                let oz1 = if z >= 0 { 0 } else { -h1 };
                assert(g.slot_of(b) == w.slot(x, y, z, ox1, oy1, oz1, d as nat));
                let j = octant(x >= ox1 + h, y >= oy1 + h, z >= oz1 + h);
                if self.holds(b) {
                    assert(j == 7 - i);
                    assert(w.child(j) == self.contents.child(i));
                    assert(i == octant(x >= -h + h, y >= -h + h, z >= -h + h));
                } else {
                    assert(j != 7 - i);
                    assert(w.child(j) == TreeBody::Empty);
                }
            }
        }
    }

    /// Growing a tree until it holds a voxel moves no voxel, and the tree
    /// then holds every voxel it held before and the one it grew for.
    pub proof fn lemma_leaf_grown_to_hold(self, b: Bounds, other: Bounds)
        requires
            0 <= self.spec_lg_size() <= MAX_TREE_LG_SIZE,
            MIN_LG_SIZE <= b.lg_size <= MAX_LG_SIZE,
        ensures
            self.grown_to_hold(b).leaf(other) == self.leaf(other),
            self.grown_to_hold(b).holds(b),
            self.holds(other) ==> self.grown_to_hold(b).holds(other),
            self.spec_lg_size() <= self.grown_to_hold(b).spec_lg_size() <= MAX_TREE_LG_SIZE,
        decreases MAX_TREE_LG_SIZE - self.spec_lg_size(),
    {
        if self.holds(b) {
        } else if self.lg_size >= MAX_TREE_LG_SIZE {
            let d = (self.lg_size - b.lg_size) as nat;
            vstd::arithmetic::power2::lemma2_to64();
            if d > 31 {
                vstd::arithmetic::power2::lemma_pow2_strictly_increases(31, d);
            }
        } else {
            self.lemma_leaf_grown(b);
            self.lemma_leaf_grown(other);
            self.grown().lemma_leaf_grown_to_hold(b, other);
        }
    }

    /// Writing the slot of one voxel changes the leaf read for that voxel and
    /// for no other voxel of the same size.
    pub proof fn lemma_leaf_with_slot_of(self, b: Bounds, node: TreeBody, other: Bounds)
        requires
            self.holds(b),
            other.lg_size == b.lg_size,
        ensures
            self.with_slot_of(b, node).leaf(other) == (if other == b {
                leaf_of(node)
            } else {
                self.leaf(other)
            }),
            self.with_slot_of(b, node).spec_lg_size() == self.spec_lg_size(),
    {
        let d = (self.lg_size - b.lg_size) as nat;
        let o = -(pow2(d) as int);
        if self.holds(other) {
            lemma_slot_after_with_slot(
                self.contents,
                b.x as int,
                b.y as int,
                b.z as int,
                other.x as int,
                other.y as int,
                other.z as int,
                o,
                o,
                o,
                d,
                node,
            );
        }
    }

    fn grow(&mut self)
        requires
            0 <= old(self).spec_lg_size() < MAX_TREE_LG_SIZE,
        ensures
            *final(self) == old(self).grown(),
    {
        let mut contents = Branches::empty();
        core::mem::swap(&mut self.contents, &mut contents);
        let Branches { lll, llh, lhl, lhh, hll, hlh, hhl, hhh } = contents;
        let mut b0 = Branches::empty();
        b0.hhh = lll;
        let mut b1 = Branches::empty();
        b1.hhl = llh;
        let mut b2 = Branches::empty();
        b2.hlh = lhl;
        let mut b3 = Branches::empty();
        b3.hll = lhh;
        let mut b4 = Branches::empty();
        b4.lhh = hll;
        let mut b5 = Branches::empty();
        b5.lhl = hlh;
        let mut b6 = Branches::empty();
        b6.llh = hhl;
        let mut b7 = Branches::empty();
        b7.lll = hhh;
        self.contents = Branches {
            lll: TreeBody::Branch(Box::new(b0)),
            llh: TreeBody::Branch(Box::new(b1)),
            lhl: TreeBody::Branch(Box::new(b2)),
            lhh: TreeBody::Branch(Box::new(b3)),
            hll: TreeBody::Branch(Box::new(b4)),
            hlh: TreeBody::Branch(Box::new(b5)),
            hhl: TreeBody::Branch(Box::new(b6)),
            hhh: TreeBody::Branch(Box::new(b7)),
        };
        self.lg_size = self.lg_size + 1;
    }

    /// Double the reach of the tree until it holds the voxel. No stored voxel
    /// moves.
    pub fn grow_to_hold(&mut self, voxel: &Bounds)
        requires
            old(self).wf(),
            MIN_LG_SIZE <= voxel.lg_size <= MAX_LG_SIZE,
        ensures
            *final(self) == old(self).grown_to_hold(*voxel),
            final(self).holds(*voxel),
            final(self).wf(),
    {
        proof {
            self.lemma_leaf_grown_to_hold(*voxel, *voxel);
        }
        while !self.contains_bounds(voxel)
            invariant
                MIN_LG_SIZE <= voxel.lg_size <= MAX_LG_SIZE,
                0 <= self.spec_lg_size() <= MAX_TREE_LG_SIZE,
                self.grown_to_hold(*voxel) == old(self).grown_to_hold(*voxel),
                self.grown_to_hold(*voxel).holds(*voxel),
            decreases MAX_TREE_LG_SIZE - self.spec_lg_size(),
        {
            proof {
                if self.lg_size < MAX_TREE_LG_SIZE {
                    self.lemma_leaf_grown(*voxel);
                }
            }
            self.grow();
        }
    }

    /// Find the slot of the voxel, growing the tree and making branches on
    /// the way down as needed. What the caller leaves in the slot is what the
    /// tree holds there afterwards.
    pub fn get_mut_or_create(&mut self, voxel: &Bounds) -> (slot: &mut TreeBody)
        requires
            old(self).wf(),
            MIN_LG_SIZE <= voxel.lg_size <= MAX_LG_SIZE,
        ensures
            final(self).wf(),
            *slot == old(self).grown_to_hold(*voxel).slot_of(*voxel),
            *final(self) == old(self).grown_to_hold(*voxel).with_slot_of(*voxel, *final(slot)),
    {
        self.grow_to_hold(voxel);
        let d: u32 = (self.lg_size - voxel.lg_size as i32) as u32;
        let p = pow2_i64(d);
        self.contents.slot_mut(voxel.x as i64, voxel.y as i64, voxel.z as i64, -p, -p, -p, p, Ghost(d as nat))
    }

    /// The voxel stored for exactly these bounds, if there is one.
    pub fn get(&self, voxel: &Bounds) -> (v: Option<Voxel>)
        requires
            self.wf(),
            MIN_LG_SIZE <= voxel.lg_size <= MAX_LG_SIZE,
        ensures
            v == self.leaf(*voxel),
    {
        if !self.contains_bounds(voxel) {
            return None;
        }
        let d: u32 = (self.lg_size - voxel.lg_size as i32) as u32;
        let p = pow2_i64(d);
        find_leaf(&self.contents, voxel.x as i64, voxel.y as i64, voxel.z as i64, -p, -p, -p, p, Ghost(d as nat))
    }
}

/// Every slot below empty branches reads as empty.
pub proof fn lemma_empty_slot(x: int, y: int, z: int, ox: int, oy: int, oz: int, level: nat)
    ensures
        Branches::spec_empty().slot(x, y, z, ox, oy, oz, level) == TreeBody::Empty,
{
}

/// Writing one slot changes what that slot reads and no other slot of the
/// same level.
pub proof fn lemma_slot_after_with_slot(
    br: Branches,
    x: int,
    y: int,
    z: int,
    qx: int,
    qy: int,
    qz: int,
    ox: int,
    oy: int,
    oz: int,
    level: nat,
    node: TreeBody,
)
    requires
        ox <= x < ox + 2 * pow2(level),
        oy <= y < oy + 2 * pow2(level),
        oz <= z < oz + 2 * pow2(level),
        ox <= qx < ox + 2 * pow2(level),
        oy <= qy < oy + 2 * pow2(level),
        oz <= qz < oz + 2 * pow2(level),
    ensures
        br.with_slot(x, y, z, ox, oy, oz, level, node).slot(qx, qy, qz, ox, oy, oz, level) == (if x == qx
            && y == qy && z == qz {
            node
        } else {
            br.slot(qx, qy, qz, ox, oy, oz, level)
        }),
    decreases level,
{
    let h = pow2(level) as int;
    let i = octant(x >= ox + h, y >= oy + h, z >= oz + h);
    let j = octant(qx >= ox + h, qy >= oy + h, qz >= oz + h);
    if level == 0 {
        assert(pow2(0) == 1) by {
            vstd::arithmetic::power2::lemma2_to64();
        }
    } else {
        lemma_pow2_unfold(level);
        if i == j {
            let below = match br.child(i) {
                TreeBody::Branch(b) => *b,
                _ => Branches::spec_empty(),
            };
            let nx = if x >= ox + h { ox + h } else { ox };
            let ny = if y >= oy + h { oy + h } else { oy };
            let nz = if z >= oz + h { oz + h } else { oz };
            lemma_slot_after_with_slot(below, x, y, z, qx, qy, qz, nx, ny, nz, (level - 1) as nat, node);
            lemma_empty_slot(qx, qy, qz, nx, ny, nz, (level - 1) as nat);
        }
    }
}

fn find_leaf(br: &Branches, x: i64, y: i64, z: i64, ox: i64, oy: i64, oz: i64, h: i64, Ghost(level): Ghost<nat>) -> (v: Option<Voxel>)
    requires
        h == pow2(level),
        level <= 62,
        ox <= x < ox + 2 * h,
        oy <= y < oy + 2 * h,
        oz <= z < oz + 2 * h,
        -0x4000_0000_0000_0000 <= ox <= 0x4000_0000_0000_0000 - 2 * h,
        -0x4000_0000_0000_0000 <= oy <= 0x4000_0000_0000_0000 - 2 * h,
        -0x4000_0000_0000_0000 <= oz <= 0x4000_0000_0000_0000 - 2 * h,
    ensures
        v == leaf_of(br.slot(x as int, y as int, z as int, ox as int, oy as int, oz as int, level)),
    decreases level,
{
    let high_x = x >= ox + h;
    let high_y = y >= oy + h;
    let high_z = z >= oz + h;
    let c = br.child_ref(high_x, high_y, high_z);
    if h == 1 {
        proof {
            lemma_pow2_pos(level);
            if level > 0 {
                lemma_pow2_unfold(level);
                lemma_pow2_pos((level - 1) as nat);
            }
        }
        match c {
            TreeBody::Leaf(v) => Some(*v),
            _ => None,
        }
    } else {
        proof {
            vstd::arithmetic::power2::lemma2_to64();
            lemma_pow2_unfold(level);
        }
        match c {
            TreeBody::Branch(b) => find_leaf(
                b,
                x,
                y,
                z,
                if high_x { ox + h } else { ox },
                if high_y { oy + h } else { oy },
                if high_z { oz + h } else { oz },
                h / 2,
                Ghost((level - 1) as nat),
            ),
            _ => None,
        }
    }
}

/// The voxel of twice the size that holds a voxel.
pub open spec fn parent(b: Bounds) -> Bounds {
    Bounds { x: (b.x / 2) as i32, y: (b.y / 2) as i32, z: (b.z / 2) as i32, lg_size: (b.lg_size + 1) as i16 }
}

/// The voxel that holds a voxel and is `steps` times twice its size.
pub open spec fn ancestor(b: Bounds, steps: int) -> Bounds
    decreases steps,
{
    if steps <= 0 {
        b
    } else {
        parent(ancestor(b, steps - 1))
    }
}

/// Whether of two voxels of different sizes the larger holds the smaller.
pub open spec fn nested(a: Bounds, b: Bounds) -> bool {
    if a.lg_size < b.lg_size {
        ancestor(a, b.lg_size - a.lg_size) == b
    } else if b.lg_size < a.lg_size {
        ancestor(b, a.lg_size - b.lg_size) == a
    } else {
        false
    }
}

/// The slot of a voxel is the child, in the corner that the voxel lies in,
/// of the branches in the slot of the voxel that holds it; it reads as
/// empty where that slot has no branches.
proof fn lemma_slot_parent(br: Branches, x: int, y: int, z: int, ox: int, oy: int, oz: int, level: nat)
    requires
        level >= 1,
        ox % 2 == 0 && oy % 2 == 0 && oz % 2 == 0,
        ox <= x < ox + 2 * pow2(level),
        oy <= y < oy + 2 * pow2(level),
        oz <= z < oz + 2 * pow2(level),
    ensures
        br.slot(x, y, z, ox, oy, oz, level) == (match br.slot(
            x / 2,
            y / 2,
            z / 2,
            ox / 2,
            oy / 2,
            oz / 2,
            (level - 1) as nat,
        ) {
            TreeBody::Branch(b) => b.child(octant(x % 2 == 1, y % 2 == 1, z % 2 == 1)),
            _ => TreeBody::Empty,
        }),
    decreases level,
{
    lemma_pow2_unfold(level);
    lemma_pow2_pos((level - 1) as nat);
    let h = pow2(level) as int;
    let half = pow2((level - 1) as nat) as int;
    assert(h == 2 * half);
    assert(pow2(0) == 1) by {
        vstd::arithmetic::power2::lemma2_to64();
    }
    let c = br.child(octant(x >= ox + h, y >= oy + h, z >= oz + h));
    assert((x >= ox + h) == (x / 2 >= ox / 2 + half));
    assert((y >= oy + h) == (y / 2 >= oy / 2 + half));
    assert((z >= oz + h) == (z / 2 >= oz / 2 + half));
    let nx = if x >= ox + h { ox + h } else { ox };
    let ny = if y >= oy + h { oy + h } else { oy };
    let nz = if z >= oz + h { oz + h } else { oz };
    let held = br.slot(x / 2, y / 2, z / 2, ox / 2, oy / 2, oz / 2, (level - 1) as nat);
    if level == 1 {
        assert(held == c);
        assert((x >= nx + 1) == (x % 2 == 1));
        assert((y >= ny + 1) == (y % 2 == 1));
        assert((z >= nz + 1) == (z % 2 == 1));
        match c {
            TreeBody::Branch(b) => {
                assert(b.slot(x, y, z, nx, ny, nz, 0) == b.child(octant(x >= nx + 1, y >= ny + 1, z >= nz + 1)));
            },
            _ => {},
        }
    } else {
        lemma_pow2_unfold((level - 1) as nat);
        assert(nx / 2 == (if x / 2 >= ox / 2 + half { ox / 2 + half } else { ox / 2 }));
        assert(ny / 2 == (if y / 2 >= oy / 2 + half { oy / 2 + half } else { oy / 2 }));
        assert(nz / 2 == (if z / 2 >= oz / 2 + half { oz / 2 + half } else { oz / 2 }));
        match c {
            TreeBody::Branch(b) => {
                lemma_slot_parent(*b, x, y, z, nx, ny, nz, (level - 1) as nat);
                assert(held == b.slot(x / 2, y / 2, z / 2, nx / 2, ny / 2, nz / 2, (level - 2) as nat));
            },
            _ => {
                assert(held == TreeBody::Empty);
            },
        }
    }
}

/// Writing the slot of a voxel is writing the slot of the voxel that holds
/// it, with branches that differ in the corner that the voxel lies in.
proof fn lemma_with_slot_parent(
    br: Branches,
    x: int,
    y: int,
    z: int,
    ox: int,
    oy: int,
    oz: int,
    level: nat,
    node: TreeBody,
)
    requires
        level >= 1,
        ox % 2 == 0 && oy % 2 == 0 && oz % 2 == 0,
        ox <= x < ox + 2 * pow2(level),
        oy <= y < oy + 2 * pow2(level),
        oz <= z < oz + 2 * pow2(level),
    ensures
        br.with_slot(x, y, z, ox, oy, oz, level, node) == br.with_slot(
            x / 2,
            y / 2,
            z / 2,
            ox / 2,
            oy / 2,
            oz / 2,
            (level - 1) as nat,
            above(br.slot(x / 2, y / 2, z / 2, ox / 2, oy / 2, oz / 2, (level - 1) as nat), x, y, z, node),
        ),
    decreases level,
{
    lemma_pow2_unfold(level);
    lemma_pow2_pos((level - 1) as nat);
    let h = pow2(level) as int;
    let half = pow2((level - 1) as nat) as int;
    assert(h == 2 * half);
    assert(pow2(0) == 1) by {
        vstd::arithmetic::power2::lemma2_to64();
    }
    let i = octant(x >= ox + h, y >= oy + h, z >= oz + h);
    assert((x >= ox + h) == (x / 2 >= ox / 2 + half));
    assert((y >= oy + h) == (y / 2 >= oy / 2 + half));
    assert((z >= oz + h) == (z / 2 >= oz / 2 + half));
    let c = br.child(i);
    let nx = if x >= ox + h { ox + h } else { ox };
    let ny = if y >= oy + h { oy + h } else { oy };
    let nz = if z >= oz + h { oz + h } else { oz };
    let below = match c {
        TreeBody::Branch(b) => *b,
        _ => Branches::spec_empty(),
    };
    let held = br.slot(x / 2, y / 2, z / 2, ox / 2, oy / 2, oz / 2, (level - 1) as nat);
    let written = above(held, x, y, z, node);
    if level == 1 {
        assert(held == c);
        assert((x >= nx + 1) == (x % 2 == 1));
        assert((y >= ny + 1) == (y % 2 == 1));
        assert((z >= nz + 1) == (z % 2 == 1));
        assert(below.with_slot(x, y, z, nx, ny, nz, 0, node) == below.with_child(
            octant(x % 2 == 1, y % 2 == 1, z % 2 == 1),
            node,
        ));
        assert(br.with_slot(x / 2, y / 2, z / 2, ox / 2, oy / 2, oz / 2, 0, written) == br.with_child(i, written));
    } else {
        lemma_pow2_unfold((level - 1) as nat);
        assert(nx / 2 == (if x / 2 >= ox / 2 + half { ox / 2 + half } else { ox / 2 }));
        assert(ny / 2 == (if y / 2 >= oy / 2 + half { oy / 2 + half } else { oy / 2 }));
        assert(nz / 2 == (if z / 2 >= oz / 2 + half { oz / 2 + half } else { oz / 2 }));
        lemma_with_slot_parent(below, x, y, z, nx, ny, nz, (level - 1) as nat, node);
        lemma_empty_slot(x / 2, y / 2, z / 2, nx / 2, ny / 2, nz / 2, (level - 2) as nat);
        assert(held == below.slot(x / 2, y / 2, z / 2, nx / 2, ny / 2, nz / 2, (level - 2) as nat));
    }
}

/// The node that stands in the slot of a voxel once a node has been
/// written in the slot of one of the eight voxels that it holds: branches
/// that differ from what was there in one corner.
pub open spec fn above(was: TreeBody, x: int, y: int, z: int, node: TreeBody) -> TreeBody {
    let below = match was {
        TreeBody::Branch(b) => *b,
        _ => Branches::spec_empty(),
    };
    TreeBody::Branch(Box::new(below.with_child(octant(x % 2 == 1, y % 2 == 1, z % 2 == 1), node)))
}

impl VoxelTree {
    /// The node in the slot of the voxel that holds a voxel once a node has
    /// been written in the slot of the voxel itself, and so on upwards.
    pub closed spec fn raised(self, b: Bounds, node: TreeBody, steps: int) -> TreeBody
        decreases steps,
    {
        if steps <= 0 {
            node
        } else {
            let below = ancestor(b, steps - 1);
            above(self.slot_of(ancestor(b, steps)), below.x as int, below.y as int, below.z as int, self.raised(
                b,
                node,
                steps - 1,
            ))
        }
    }

    /// Writing one slot changes what that slot holds and no other slot of
    /// the same level.
    proof fn lemma_slot_with_slot_of(self, b: Bounds, node: TreeBody, other: Bounds)
        requires
            self.holds(b),
            other.lg_size == b.lg_size,
        ensures
            self.with_slot_of(b, node).slot_of(other) == (if other == b {
                node
            } else {
                self.slot_of(other)
            }),
            self.with_slot_of(b, node).spec_lg_size() == self.spec_lg_size(),
    {
        let d = (self.lg_size - b.lg_size) as nat;
        let o = -(pow2(d) as int);
        if self.holds(other) {
            lemma_slot_after_with_slot(
                self.contents,
                b.x as int,
                b.y as int,
                b.z as int,
                other.x as int,
                other.y as int,
                other.z as int,
                o,
                o,
                o,
                d,
                node,
            );
        }
    }

    /// A tree that holds a voxel smaller than its children holds the voxel
    /// of twice the size that holds that voxel, and the slot of the voxel is
    /// a child of the branches in the slot of the larger one.
    proof fn lemma_parent_slot(self, b: Bounds)
        requires
            self.wf(),
            self.holds(b),
            self.spec_lg_size() > b.lg_size,
        ensures
            self.holds(parent(b)),
            parent(b).lg_size == b.lg_size + 1,
            self.slot_of(b) == (match self.slot_of(parent(b)) {
                TreeBody::Branch(br) => br.child(octant(b.x % 2 == 1, b.y % 2 == 1, b.z % 2 == 1)),
                _ => TreeBody::Empty,
            }),
    {
        let d = (self.lg_size - b.lg_size) as nat;
        lemma_pow2_unfold(d);
        lemma_pow2_pos((d - 1) as nat);
        let o = -(pow2(d) as int);
        lemma_slot_parent(self.contents, b.x as int, b.y as int, b.z as int, o, o, o, d);
    }

    /// Writing the slot of a voxel is writing the slot of the voxel of
    /// twice the size that holds it.
    proof fn lemma_parent_write(self, b: Bounds, node: TreeBody)
        requires
            self.wf(),
            self.holds(b),
            self.spec_lg_size() > b.lg_size,
        ensures
            self.with_slot_of(b, node) == self.with_slot_of(
                parent(b),
                above(self.slot_of(parent(b)), b.x as int, b.y as int, b.z as int, node),
            ),
    {
        let d = (self.lg_size - b.lg_size) as nat;
        lemma_pow2_unfold(d);
        lemma_pow2_pos((d - 1) as nat);
        let o = -(pow2(d) as int);
        self.lemma_parent_slot(b);
        lemma_with_slot_parent(self.contents, b.x as int, b.y as int, b.z as int, o, o, o, d, node);
    }

    /// A tree that holds a voxel holds every larger voxel that holds that
    /// voxel, up to the size of the tree's children.
    proof fn lemma_ancestor_held(self, b: Bounds, steps: int)
        requires
            self.wf(),
            self.holds(b),
            0 <= steps <= self.spec_lg_size() - b.lg_size,
        ensures
            self.holds(ancestor(b, steps)),
            ancestor(b, steps).lg_size == b.lg_size + steps,
        decreases steps,
    {
        if steps > 0 {
            self.lemma_ancestor_held(b, steps - 1);
            self.lemma_parent_slot(ancestor(b, steps - 1));
        }
    }

    /// Writing the slot of a voxel is writing the slot of any larger voxel
    /// that holds it; what is written there is a branch.
    proof fn lemma_raise(self, b: Bounds, node: TreeBody, steps: int)
        requires
            self.wf(),
            self.holds(b),
            0 <= steps <= self.spec_lg_size() - b.lg_size,
        ensures
            self.with_slot_of(b, node) == self.with_slot_of(ancestor(b, steps), self.raised(b, node, steps)),
            steps >= 1 ==> self.raised(b, node, steps) is Branch,
        decreases steps,
    {
        if steps > 0 {
            self.lemma_raise(b, node, steps - 1);
            self.lemma_ancestor_held(b, steps - 1);
            self.lemma_parent_write(ancestor(b, steps - 1), self.raised(b, node, steps - 1));
        }
    }

    /// Two trees of one size that hold the same node in the slot of a voxel
    /// hold the same node in the slot of every smaller voxel inside it.
    proof fn lemma_same_descent(self, other: VoxelTree, o: Bounds, steps: int)
        requires
            self.wf(),
            other.wf(),
            self.spec_lg_size() == other.spec_lg_size(),
            self.holds(o),
            0 <= steps <= self.spec_lg_size() - o.lg_size,
            self.slot_of(ancestor(o, steps)) == other.slot_of(ancestor(o, steps)),
        ensures
            self.slot_of(o) == other.slot_of(o),
        decreases steps,
    {
        if steps > 0 {
            self.lemma_ancestor_held(o, steps - 1);
            self.lemma_parent_slot(ancestor(o, steps - 1));
            other.lemma_parent_slot(ancestor(o, steps - 1));
            self.lemma_same_descent(other, o, steps - 1);
        }
    }

    /// Below a slot that holds no branches, every slot reads as empty.
    proof fn lemma_empty_descent(self, o: Bounds, steps: int)
        requires
            self.wf(),
            self.holds(o),
            1 <= steps <= self.spec_lg_size() - o.lg_size,
            !(self.slot_of(ancestor(o, steps)) is Branch),
        ensures
            self.slot_of(o) == TreeBody::Empty,
        decreases steps,
    {
        self.lemma_ancestor_held(o, steps - 1);
        self.lemma_parent_slot(ancestor(o, steps - 1));
        if steps > 1 {
            self.lemma_empty_descent(o, steps - 1);
        }
    }

    /// What a tree stores after a leaf or nothing has been written in the
    /// slot of a voxel: in that slot, what was written; for any other voxel
    /// of the same size, and for any voxel of another size that neither
    /// holds the voxel nor lies in it, what it stored before; and nothing
    /// for the larger voxels that hold the voxel and for the smaller ones
    /// that lie in it.
    pub proof fn lemma_leaf_after_write(self, b: Bounds, node: TreeBody, o: Bounds)
        requires
            self.wf(),
            self.holds(b),
            !(node is Branch),
        ensures
            self.with_slot_of(b, node).leaf(o) == (if o == b {
                leaf_of(node)
            } else if nested(b, o) {
                None
            } else {
                self.leaf(o)
            }),
    {
        let after = self.with_slot_of(b, node);
        let reach = self.spec_lg_size() - b.lg_size;
        self.lemma_slot_with_slot_of(b, node, b);
        if o.lg_size == b.lg_size {
            self.lemma_leaf_with_slot_of(b, node, o);
        } else if o.lg_size > b.lg_size {
            let steps = o.lg_size - b.lg_size;
            if steps <= reach {
                self.lemma_raise(b, node, steps);
                self.lemma_ancestor_held(b, steps);
                let a = ancestor(b, steps);
                self.lemma_leaf_with_slot_of(a, self.raised(b, node, steps), o);
            }
        } else {
            let steps = b.lg_size - o.lg_size;
            if self.holds(o) {
                let a = ancestor(o, steps);
                self.lemma_ancestor_held(o, steps);
                self.lemma_slot_with_slot_of(b, node, a);
                if a == b {
                    after.lemma_empty_descent(o, steps);
                } else {
                    self.lemma_same_descent(after, o, steps);
                }
            }
        }
    }
}

} // verus!

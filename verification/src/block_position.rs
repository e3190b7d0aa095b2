//! Positions of blocks on the integer lattice.

use vstd::prelude::*;

verus! {

/// The largest absolute block coordinate that the streaming code works with.
/// Positions within this bound can be offset by any radius up to
/// [`MAX_RADIUS`] and compared with each other without leaving `i32`.
pub const MAX_COORDINATE: i32 = 0x0800_0000;

/// The largest cube-shell radius that the streaming code works with.
pub const MAX_RADIUS: i32 = 0x0800_0000;

/// A block of the world, named by its place on the integer lattice. The block
/// covers the world cube whose low corner is the position times the block
/// width.
#[derive(Copy, Clone, PartialEq, Eq, Hash, Debug, Structural)]
pub struct BlockPosition {
    pub x: i32,
    pub y: i32,
    pub z: i32,
}

/// Chebyshev distance between two lattice points: the largest absolute
/// difference along any axis.
pub open spec fn chebyshev(p: BlockPosition, q: BlockPosition) -> int {
    let dx = if p.x >= q.x { p.x - q.x } else { q.x - p.x };
    let dy = if p.y >= q.y { p.y - q.y } else { q.y - p.y };
    let dz = if p.z >= q.z { p.z - q.z } else { q.z - p.z };
    if dx >= dy && dx >= dz {
        dx
    } else if dy >= dz {
        dy
    } else {
        dz
    }
}

impl BlockPosition {
    /// The block at the given place on the lattice.
    pub fn new(x: i32, y: i32, z: i32) -> (p: BlockPosition)
        ensures
            p == (BlockPosition { x, y, z }),
    {
        BlockPosition { x, y, z }
    }

    /// Every coordinate is within [`MAX_COORDINATE`] of zero.
    pub open spec fn in_range(self) -> bool {
        &&& -MAX_COORDINATE <= self.x <= MAX_COORDINATE
        &&& -MAX_COORDINATE <= self.y <= MAX_COORDINATE
        &&& -MAX_COORDINATE <= self.z <= MAX_COORDINATE
    }

    /// The position moved by `(dx, dy, dz)`.
    pub open spec fn spec_offset(self, dx: int, dy: int, dz: int) -> BlockPosition {
        BlockPosition {
            x: (self.x + dx) as i32,
            y: (self.y + dy) as i32,
            z: (self.z + dz) as i32,
        }
    }

    /// A number that names this position and no other.
    pub open spec fn spec_key(self) -> u128 {
        ((self.x + 0x8000_0000) * 0x1_0000_0000_0000_0000 + (self.y + 0x8000_0000) * 0x1_0000_0000
            + (self.z + 0x8000_0000)) as u128
    }

    /// Two positions with the same key are the same position.
    pub proof fn lemma_key_injective(self, other: BlockPosition)
        requires
            self.spec_key() == other.spec_key(),
        ensures
            self == other,
    {
        let a = self.x + 0x8000_0000;
        let b = self.y + 0x8000_0000;
        let c = self.z + 0x8000_0000;
        let d = other.x + 0x8000_0000;
        let e = other.y + 0x8000_0000;
        let f = other.z + 0x8000_0000;
        assert(a * 0x1_0000_0000_0000_0000 + b * 0x1_0000_0000 + c == d * 0x1_0000_0000_0000_0000
            + e * 0x1_0000_0000 + f);
    }

    /// A number that names this position and no other.
    pub fn key(&self) -> (k: u128)
        ensures
            k == self.spec_key(),
    {
        let a: u128 = (self.x as i64 + 0x8000_0000) as u128;
        let b: u128 = (self.y as i64 + 0x8000_0000) as u128;
        let c: u128 = (self.z as i64 + 0x8000_0000) as u128;
        a * 0x1_0000_0000_0000_0000 + b * 0x1_0000_0000 + c
    }

    /// The position moved by `(dx, dy, dz)`.
    pub fn offset(&self, dx: i32, dy: i32, dz: i32) -> (p: BlockPosition)
        requires
            i32::MIN <= self.x + dx <= i32::MAX,
            i32::MIN <= self.y + dy <= i32::MAX,
            i32::MIN <= self.z + dz <= i32::MAX,
        ensures
            p == self.spec_offset(dx as int, dy as int, dz as int),
    {
        BlockPosition { x: self.x + dx, y: self.y + dy, z: self.z + dz }
    }
}

} // verus!

//! Collisions of boxes with the loaded terrain.
//!
//! The terrain is looked up block by block: a box can only touch the
//! terrain of the blocks that it reaches into. A block that is held by a
//! placeholder is solid throughout; a block with a mesh is solid where the
//! boxes of its triangles are.

use crate::block_position::{BlockPosition, MAX_COORDINATE};
use crate::entity::EntityId;
use crate::in_progress_terrain::BLOCK_FIXED_WIDTH;
use crate::lod::LOD;
use crate::physics::Physics;
use crate::terrain_block::{Aabb3, Point3, TerrainBlock, TerrainBlockView};
use crate::terrain_game_loader::TerrainGameLoader;
use vstd::prelude::*;

verus! {

/// Whether two boxes share a point that is strictly inside of both.
pub open spec fn spec_overlaps(a: Aabb3, b: Aabb3) -> bool {
    &&& a.min.x < b.max.x && b.min.x < a.max.x
    &&& a.min.y < b.max.y && b.min.y < a.max.y
    &&& a.min.z < b.max.z && b.min.z < a.max.z
}

/// Whether two boxes share a point that is strictly inside of both.
pub fn overlaps(a: &Aabb3, b: &Aabb3) -> (r: bool)
    ensures
        r == spec_overlaps(*a, *b),
{
    a.min.x < b.max.x && b.min.x < a.max.x && a.min.y < b.max.y && b.min.y < a.max.y && a.min.z < b.max.z
        && b.min.z < a.max.z
}

/// The greatest absolute fixed-point coordinate of the world: that of the
/// far side of the farthest block.
pub const MAX_WORLD_COORDINATE: i64 = 0x100_0000_0000;

/// Whether a fixed-point coordinate lies in the world.
pub open spec fn in_world(c: i64) -> bool {
    -MAX_WORLD_COORDINATE <= c < MAX_WORLD_COORDINATE
}

/// Whether a box lies in the world.
pub open spec fn box_in_world(b: Aabb3) -> bool {
    &&& in_world(b.min.x) && in_world(b.min.y) && in_world(b.min.z)
    &&& in_world(b.max.x) && in_world(b.max.y) && in_world(b.max.z)
}

/// Whether a box lies in the world.
pub fn is_in_world(b: &Aabb3) -> (r: bool)
    ensures
        r == box_in_world(*b),
{
    let lo: i64 = -MAX_WORLD_COORDINATE;
    let hi: i64 = MAX_WORLD_COORDINATE;
    lo <= b.min.x && b.min.x < hi && lo <= b.min.y && b.min.y < hi && lo <= b.min.z && b.min.z < hi && lo
        <= b.max.x && b.max.x < hi && lo <= b.max.y && b.max.y < hi && lo <= b.max.z && b.max.z < hi
}

/// The lattice coordinate of the block that holds a fixed-point coordinate.
pub open spec fn spec_block_of(c: i64) -> int {
    c as int / BLOCK_FIXED_WIDTH as int
}

/// The lattice coordinate of the block that holds a fixed-point coordinate.
pub fn block_of(c: i64) -> (b: i32)
    requires
        in_world(c),
    ensures
        b == spec_block_of(c),
        -MAX_COORDINATE <= b < MAX_COORDINATE,
{
    assert(BLOCK_FIXED_WIDTH == 8192);
    if c >= 0 {
        (c / 8192) as i32
    } else {
        (-((-c - 1) / 8192) - 1) as i32
    }
}

/// The block that holds a point of the world.
pub open spec fn spec_from_world_position(p: Point3) -> BlockPosition {
    BlockPosition { x: spec_block_of(p.x) as i32, y: spec_block_of(p.y) as i32, z: spec_block_of(p.z) as i32 }
}

/// The block that holds a point of the world.
pub fn from_world_position(p: &Point3) -> (b: BlockPosition)
    requires
        in_world(p.x),
        in_world(p.y),
        in_world(p.z),
    ensures
        b == spec_from_world_position(*p),
        b.in_range(),
{
    BlockPosition { x: block_of(p.x), y: block_of(p.y), z: block_of(p.z) }
}

/// Whether a box reaches into a block.
pub open spec fn reaches(b: Aabb3, p: BlockPosition) -> bool {
    &&& spec_block_of(b.min.x) <= p.x <= spec_block_of(b.max.x)
    &&& spec_block_of(b.min.y) <= p.y <= spec_block_of(b.max.y)
    &&& spec_block_of(b.min.z) <= p.z <= spec_block_of(b.max.z)
}

/// Whether a box overlaps the box of a triangle of a mesh.
pub open spec fn mesh_hit(mesh: TerrainBlockView, b: Aabb3) -> bool {
    exists|i: int| 0 <= i < mesh.bounds.len() && spec_overlaps((#[trigger] mesh.bounds[i]).1, b)
}

/// Whether a box that reaches into a block touches what is loaded there: a
/// placeholder, which makes the whole block solid, or a mesh, which is
/// solid where the boxes of its triangles are.
pub open spec fn block_hit(loader: TerrainGameLoader, p: BlockPosition, b: Aabb3) -> bool {
    match loader.lod_map.loaded(p) {
        Some(LOD::Placeholder) => true,
        Some(LOD::LodIndex(lod)) => match loader.terrain.cached(p, lod) {
            Some(mesh) => mesh_hit(mesh, b),
            None => false,
        },
        None => false,
    }
}

/// Whether a box touches the loaded terrain.
pub open spec fn spec_hits_terrain(loader: TerrainGameLoader, b: Aabb3) -> bool {
    exists|p: BlockPosition| reaches(b, p) && #[trigger] block_hit(loader, p, b)
}

fn hits_mesh(mesh: &TerrainBlock, b: &Aabb3) -> (hit: bool)
    ensures
        hit == mesh_hit(mesh@, *b),
{
    let mut i: usize = 0;
    while i < mesh.bounds.len()
        invariant
            i <= mesh.bounds@.len(),
            forall|k: int| 0 <= k < i ==> !spec_overlaps((#[trigger] mesh.bounds@[k]).1, *b),
        decreases mesh.bounds@.len() - i,
    {
        if overlaps(&mesh.bounds[i].1, b) {
            assert(spec_overlaps(mesh@.bounds[i as int].1, *b));
            return true;
        }
        i = i + 1;
    }
    false
}

fn hits_block(loader: &TerrainGameLoader, p: &BlockPosition, b: &Aabb3) -> (hit: bool)
    ensures
        hit == block_hit(*loader, *p, *b),
{
    match loader.lod_map.get_loaded(p) {
        Some(LOD::Placeholder) => true,
        Some(LOD::LodIndex(lod)) => match loader.terrain.get(p, lod) {
            Some(mesh) => hits_mesh(mesh, b),
            None => false,
        },
        None => false,
    }
}

/// Whether a box touches the loaded terrain.
pub fn hits_terrain(loader: &TerrainGameLoader, b: &Aabb3) -> (hit: bool)
    requires
        box_in_world(*b),
    ensures
        hit == spec_hits_terrain(*loader, *b),
{
    let lx = block_of(b.min.x);
    let hx = block_of(b.max.x);
    let ly = block_of(b.min.y);
    let hy = block_of(b.max.y);
    let lz = block_of(b.min.z);
    let hz = block_of(b.max.z);
    let mut x: i32 = lx;
    while x <= hx
        invariant
            lx <= x,
            hx < MAX_COORDINATE,
            lx == spec_block_of(b.min.x) && hx == spec_block_of(b.max.x),
            ly == spec_block_of(b.min.y) && hy == spec_block_of(b.max.y),
            lz == spec_block_of(b.min.z) && hz == spec_block_of(b.max.z),
            hy < MAX_COORDINATE,
            hz < MAX_COORDINATE,
            forall|p: BlockPosition| reaches(*b, p) && p.x < x ==> !#[trigger] block_hit(*loader, p, *b),
        decreases hx - x + 1,
    {
        let mut y: i32 = ly;
        while y <= hy
            invariant
                lx <= x <= hx,
                ly <= y,
                hx < MAX_COORDINATE,
                hy < MAX_COORDINATE,
                hz < MAX_COORDINATE,
                lx == spec_block_of(b.min.x) && hx == spec_block_of(b.max.x),
                ly == spec_block_of(b.min.y) && hy == spec_block_of(b.max.y),
                lz == spec_block_of(b.min.z) && hz == spec_block_of(b.max.z),
                forall|p: BlockPosition|
                    reaches(*b, p) && (p.x < x || (p.x == x && p.y < y)) ==> !#[trigger] block_hit(*loader, p, *b),
            decreases hy - y + 1,
        {
            let mut z: i32 = lz;
            while z <= hz
                invariant
                    lx <= x <= hx,
                    ly <= y <= hy,
                    lz <= z,
                    hx < MAX_COORDINATE,
                    hy < MAX_COORDINATE,
                    hz < MAX_COORDINATE,
                    lx == spec_block_of(b.min.x) && hx == spec_block_of(b.max.x),
                    ly == spec_block_of(b.min.y) && hy == spec_block_of(b.max.y),
                    lz == spec_block_of(b.min.z) && hz == spec_block_of(b.max.z),
                    forall|p: BlockPosition|
                        reaches(*b, p) && (p.x < x || (p.x == x && (p.y < y || (p.y == y && p.z < z))))
                            ==> !#[trigger] block_hit(*loader, p, *b),
                decreases hz - z + 1,
            {
                let p = BlockPosition::new(x, y, z);
                if hits_block(loader, &p, b) {
                    assert(reaches(*b, p));
                    return true;
                }
                z = z + 1;
            }
            y = y + 1;
        }
        x = x + 1;
    }
    false
}

/// The box moved by a vector.
pub open spec fn spec_translated(b: Aabb3, dx: int, dy: int, dz: int) -> Aabb3 {
    Aabb3 {
        min: Point3 { x: (b.min.x + dx) as i64, y: (b.min.y + dy) as i64, z: (b.min.z + dz) as i64 },
        max: Point3 { x: (b.max.x + dx) as i64, y: (b.max.y + dy) as i64, z: (b.max.z + dz) as i64 },
    }
}

/// Whether an entity can be asked to move by a vector: it has a box, and
/// the box would still lie in the world.
pub open spec fn can_translate(physics: Physics, id: EntityId, dx: int, dy: int, dz: int) -> bool {
    &&& physics.misc().contains_key(id)
    &&& in_world_after(physics.misc()[id].min.x, dx) && in_world_after(physics.misc()[id].max.x, dx)
    &&& in_world_after(physics.misc()[id].min.y, dy) && in_world_after(physics.misc()[id].max.y, dy)
    &&& in_world_after(physics.misc()[id].min.z, dz) && in_world_after(physics.misc()[id].max.z, dz)
}

/// Whether a coordinate still lies in the world after a move.
pub open spec fn in_world_after(c: i64, d: int) -> bool {
    -MAX_WORLD_COORDINATE <= c + d < MAX_WORLD_COORDINATE
}

fn fits(c: i64, d: i64) -> (r: bool)
    ensures
        r == in_world_after(c, d as int),
{
    let sum: i128 = c as i128 + d as i128;
    -(MAX_WORLD_COORDINATE as i128) <= sum && sum < MAX_WORLD_COORDINATE as i128
}

/// Whether an entity can be asked to move by a vector.
pub fn translatable(physics: &Physics, id: EntityId, dx: i64, dy: i64, dz: i64) -> (r: bool)
    ensures
        r == can_translate(*physics, id, dx as int, dy as int, dz as int),
{
    match physics.get_bounds(id) {
        Some(b) => fits(b.min.x, dx) && fits(b.max.x, dx) && fits(b.min.y, dy) && fits(b.max.y, dy) && fits(
            b.min.z,
            dz,
        ) && fits(b.max.z, dz),
        None => false,
    }
}

/// Move the box of an entity by a vector, unless the loaded terrain is in
/// the way. Returns whether it was; the box then stays where it is.
pub fn translate_misc(physics: &mut Physics, loader: &TerrainGameLoader, id: EntityId, dx: i64, dy: i64, dz: i64) -> (collided:
    bool)
    requires
        can_translate(*old(physics), id, dx as int, dy as int, dz as int),
    ensures
        collided == spec_hits_terrain(
            *loader,
            spec_translated(old(physics).misc()[id], dx as int, dy as int, dz as int),
        ),
        final(physics).terrain() == old(physics).terrain(),
        final(physics).misc() == (if collided {
            old(physics).misc()
        } else {
            old(physics).misc().insert(id, spec_translated(old(physics).misc()[id], dx as int, dy as int, dz as int))
        }),
{
    let bounds = match physics.get_bounds(id) {
        Some(bounds) => bounds,
        None => {
            return false;
        },
    };
    let moved = Aabb3 {
        min: Point3 { x: bounds.min.x + dx, y: bounds.min.y + dy, z: bounds.min.z + dz },
        max: Point3 { x: bounds.max.x + dx, y: bounds.max.y + dy, z: bounds.max.z + dz },
    };
    if hits_terrain(loader, &moved) {
        return true;
    }
    physics.insert_misc(id, moved);
    false
}

} // verus!

//! Voxels and the places they occupy.

use vstd::prelude::*;

verus! {

/// The place of a voxel: integer coordinates in units of the voxel's own
/// size, which is two to the power `lg_size`.
#[derive(Debug, Copy, Clone, PartialEq, Eq, Structural)]
pub struct Bounds {
    /// x-coordinate as a multiple of 2^lg_size.
    pub x: i32,
    /// y-coordinate as a multiple of 2^lg_size.
    pub y: i32,
    /// z-coordinate as a multiple of 2^lg_size.
    pub z: i32,
    /// The log_2 of the voxel's size.
    pub lg_size: i16,
}

impl Bounds {
    /// Convenience function to create `Bounds`.
    /// N.B. That the input coordinates should be divided by (2^lg_size) relative to world coords.
    pub fn new(x: i32, y: i32, z: i32, lg_size: i16) -> (b: Bounds)
        ensures
            b == (Bounds { x, y, z, lg_size }),
    {
        Bounds { x, y, z, lg_size }
    }
}

/// Express a `[0,1)` fraction using a `u8`.
#[derive(Debug, Copy, Clone, PartialEq, Eq, Structural)]
pub struct Fracu8 {
    // The denominator is 1 << 8.
    pub numerator: u8,
}

impl Fracu8 {
    /// The fraction with the given numerator.
    pub fn of(numerator: u8) -> (f: Fracu8)
        ensures
            f.numerator == numerator,
    {
        Fracu8 { numerator }
    }
}

/// A point inside a voxel, each coordinate a fraction of the voxel's width
/// measured from the voxel's low corner.
#[derive(Debug, Copy, Clone, PartialEq, Eq, Structural)]
pub struct Vertex {
    pub x: Fracu8,
    pub y: Fracu8,
    pub z: Fracu8,
}

/// A point of the world in fixed point: each coordinate counts units of two
/// to the power `lg_unit`.
#[derive(Debug, Copy, Clone, PartialEq, Eq, Structural)]
pub struct WorldVertex {
    pub x: i64,
    pub y: i64,
    pub z: i64,
    pub lg_unit: i32,
}

impl Vertex {
    /// The vertex as a point of the world, given the voxel that holds it.
    /// The unit of the result is 1/256 of the voxel's width, so that the
    /// result is exact.
    pub fn to_world_vertex(&self, parent: &Bounds) -> (w: WorldVertex)
        ensures
            w.x == parent.x * 256 + self.x.numerator,
            w.y == parent.y * 256 + self.y.numerator,
            w.z == parent.z * 256 + self.z.numerator,
            w.lg_unit == parent.lg_size - 8,
    {
        WorldVertex {
            x: parent.x as i64 * 256 + self.x.numerator as i64,
            y: parent.y as i64 * 256 + self.y.numerator as i64,
            z: parent.z as i64 * 256 + self.z.numerator as i64,
            lg_unit: parent.lg_size as i32 - 8,
        }
    }
}

/// Every voxel keeps track of a single vertex, as well as whether its
/// lowest-coordinate corner is inside the volume.
#[derive(Debug, Copy, Clone, PartialEq, Eq, Structural)]
pub struct SurfaceVoxel {
    /// The position of a free-floating vertex on the surface.
    pub inner_vertex: Vertex,
    /// Is this voxel's low corner inside the field?
    pub corner_inside_surface: bool,
}

/// What a voxel holds of the volume: all or nothing of it, or a piece of
/// its surface.
#[derive(Debug, Copy, Clone, PartialEq, Eq, Structural)]
pub enum Voxel {
    /// The voxel is entirely inside or outside the volume. true is inside.
    Volume(bool),
    /// The voxel crosses the surface of the volume.
    Surface(SurfaceVoxel),
}

impl Voxel {
    /// Whether the voxel's lowest-coordinate corner is inside the volume.
    pub open spec fn spec_corner_inside(self) -> bool {
        match self {
            Voxel::Volume(inside) => inside,
            Voxel::Surface(v) => v.corner_inside_surface,
        }
    }

    /// Whether the voxel's lowest-coordinate corner is inside the volume.
    pub fn corner_inside(&self) -> (inside: bool)
        ensures
            inside == self.spec_corner_inside(),
    {
        match self {
            Voxel::Volume(inside) => *inside,
            Voxel::Surface(v) => v.corner_inside_surface,
        }
    }
}

} // verus!

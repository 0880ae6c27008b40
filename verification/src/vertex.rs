//! Vertices and the small integer vectors they are made of.

use crate::color::Color;
use crate::fixed::{clamp, UNIT};
use vstd::prelude::*;

verus! {

/// Two integer coordinates.
#[derive(Clone, Copy, Debug, PartialEq, Eq, Structural)]
pub struct Vec2 {
    pub x: i32,
    pub y: i32,
}

/// Three integer coordinates.
#[derive(Clone, Copy, Debug, PartialEq, Eq, Structural)]
pub struct Vec3 {
    pub x: i32,
    pub y: i32,
    pub z: i32,
}

/// A position in homogeneous coordinates.
#[derive(Clone, Copy, Debug, PartialEq, Eq, Structural)]
pub struct Vec4 {
    pub x: i32,
    pub y: i32,
    pub z: i32,
    pub w: i32,
}

impl Vec4 {
    /// The vector with the given coordinates.
    pub fn new(x: i32, y: i32, z: i32, w: i32) -> (v: Vec4)
        ensures
            v == (Vec4 { x, y, z, w }),
    {
        Vec4 { x, y, z, w }
    }
}

impl Vec2 {
    /// The vector with the given coordinates.
    pub fn new(x: i32, y: i32) -> (v: Vec2)
        ensures
            v == (Vec2 { x, y }),
    {
        Vec2 { x, y }
    }
}

impl Vec3 {
    /// The vector with the given coordinates.
    pub fn new(x: i32, y: i32, z: i32) -> (v: Vec3)
        ensures
            v == (Vec3 { x, y, z }),
    {
        Vec3 { x, y, z }
    }
}

/// One vertex of a mesh, with the attributes it was loaded with and the
/// copies that the transform stage wrote.
///
/// `position` is in object space, in whatever fixed-point unit the mesh was
/// quantized with. `transformed_position` is on the screen: `x` and `y` count
/// 256ths of a pixel and `z` is the depth. `transformed_normal` is a unit
/// vector in thousandths.
#[derive(Clone, Copy, Debug, PartialEq, Eq, Structural)]
pub struct Vertex {
    pub position: Vec3,
    pub normal: Vec3,
    pub tex_coords: Vec2,
    pub color: Color,
    pub transformed_position: Vec3,
    pub transformed_normal: Vec3,
}

impl Vertex {
    /// The light weight of the vertex under a light that shines along the
    /// viewing axis: the `z` part of the transformed normal, limited to the
    /// range from zero to one whole.
    pub open spec fn spec_light(self) -> int {
        clamp(self.transformed_normal.z as int, 0, UNIT as int)
    }

    /// A vertex that has not been transformed yet: the transformed copies
    /// start out as the position and the normal it came with, and the colour
    /// is black.
    pub fn new(position: Vec3, normal: Vec3, tex_coords: Vec2) -> (v: Vertex)
        ensures
            v == (Vertex {
                position,
                normal,
                tex_coords,
                color: Color { r: 0, g: 0, b: 0 },
                transformed_position: position,
                transformed_normal: normal,
            }),
    {
        Vertex {
            position,
            normal,
            tex_coords,
            color: Color::black(),
            transformed_position: position,
            transformed_normal: normal,
        }
    }

    /// Records what the transform stage computed for this vertex.
    pub fn set_transformed(&mut self, position: Vec3, normal: Vec3)
        ensures
            *final(self) == (Vertex {
                transformed_position: position,
                transformed_normal: normal,
                ..*old(self)
            }),
    {
        self.transformed_position = position;
        self.transformed_normal = normal;
    }

    /// The light weight of the vertex, in thousandths.
    pub fn light(&self) -> (w: i32)
        ensures
            w == self.spec_light(),
    {
        let z: i32 = self.transformed_normal.z;
        if z < 0 {
            0
        } else if z > UNIT {
            UNIT
        } else {
            z
        }
    }
}

} // verus!

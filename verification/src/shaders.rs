//! The last step of the vertex transform: perspective division and the
//! normalization of the normal.
//!
//! The matrix products that come before are made outside this library. What
//! arrives here is their result: the position in homogeneous coordinates and
//! the normal as the normal matrix left it.

use crate::fixed::{clamp, clamp_to, floor_div, UNIT};
use crate::vertex::{Vec3, Vec4, Vertex};
use vstd::arithmetic::div_mod::{lemma_div_is_ordered, lemma_div_multiples_vanish};
use vstd::prelude::*;

verus! {

/// One in the scale of the homogeneous coordinate `w`.
pub const W_ONE: i32 = 65536;

/// Why a vertex could not be transformed.
#[derive(Clone, Copy, Debug, PartialEq, Eq, Structural)]
pub enum TransformError {
    /// The homogeneous coordinate `w` is zero: the transform that gave it
    /// cannot be divided through.
    ZeroW,
}

/// `v` limited to what 32 bits hold.
pub open spec fn saturated(v: int) -> int {
    clamp(v, -0x8000_0000, 0x7fff_ffff)
}

/// The coordinate `v` divided by the homogeneous coordinate `w`, rounded
/// toward minus infinity and limited to what 32 bits hold.
pub open spec fn perspective(v: int, w: int) -> int {
    if w > 0 {
        saturated(v * W_ONE / w)
    } else {
        saturated((-(v * W_ONE)) / (-w))
    }
}

/// Whether `r` is the integer square root of `n`.
pub open spec fn is_root(r: int, n: int) -> bool {
    0 <= r && r * r <= n < (r + 1) * (r + 1)
}

/// The integer square root: the greatest integer whose square is not above
/// `n`.
pub open spec fn root(n: int) -> int {
    choose|r: int| is_root(r, n)
}

/// The squared length of a vector.
pub open spec fn length_squared(v: Vec3) -> int {
    v.x * v.x + v.y * v.y + v.z * v.z
}

/// The length of a vector in 65536ths of its unit.
pub open spec fn length_scaled(v: Vec3) -> int {
    root(length_squared(v) * 0x1_0000_0000)
}

/// The component `c` of a vector of scaled length `l`, in thousandths of
/// that length, rounded to the nearest integer.
pub open spec fn unit_component(c: int, l: int) -> int {
    (2 * (c * (UNIT * 65536)) + l) / (2 * l)
}

/// The vector of length one whole, in thousandths, that points the way `v`
/// points. The zero vector points nowhere and stays the zero vector.
pub open spec fn unit_vector(v: Vec3) -> Vec3 {
    let l = length_scaled(v);
    if l == 0 {
        Vec3 { x: 0, y: 0, z: 0 }
    } else {
        Vec3 {
            x: unit_component(v.x as int, l) as i32,
            y: unit_component(v.y as int, l) as i32,
            z: unit_component(v.z as int, l) as i32,
        }
    }
}

/// The transformed vertex: the attributes it came with, the position
/// divided by `w`, and the normal brought to unit length.
pub open spec fn transformed(vertex: Vertex, clip: Vec4, normal: Vec3) -> Vertex {
    Vertex {
        transformed_position: Vec3 {
            x: perspective(clip.x as int, clip.w as int) as i32,
            y: perspective(clip.y as int, clip.w as int) as i32,
            z: perspective(clip.z as int, clip.w as int) as i32,
        },
        transformed_normal: unit_vector(normal),
        ..vertex
    }
}

/// What the transform stage is handed for one vertex: the vertex, its
/// position after the projection, view and model matrices, and its normal
/// after the normal matrix.
#[derive(Clone, Copy, Debug, PartialEq, Eq, Structural)]
pub struct Projected {
    pub vertex: Vertex,
    pub clip: Vec4,
    pub normal: Vec3,
}

/// Whether every vertex can be divided through: no `w` is zero.
pub open spec fn divisible(inputs: Seq<Projected>) -> bool {
    forall|i: int| 0 <= i < inputs.len() ==> (#[trigger] inputs[i]).clip.w != 0
}

/// The transformed vertices, in the order of the inputs.
pub open spec fn transformed_all(inputs: Seq<Projected>) -> Seq<Vertex> {
    Seq::new(
        inputs.len(),
        |i: int| transformed(inputs[i].vertex, inputs[i].clip, inputs[i].normal),
    )
}

/// A number has one integer square root.
pub proof fn lemma_root_unique(r: int, s: int, n: int)
    requires
        is_root(r, n),
        is_root(s, n),
    ensures
        r == s,
{
    if r < s {
        assert((r + 1) * (r + 1) <= s * s) by (nonlinear_arith)
            requires
                0 <= r,
                r + 1 <= s,
        ;
    } else if s < r {
        assert((s + 1) * (s + 1) <= r * r) by (nonlinear_arith)
            requires
                0 <= s,
                s + 1 <= r,
        ;
    }
}

/// What satisfies `is_root` is the root.
pub proof fn lemma_root_is(r: int, n: int)
    requires
        is_root(r, n),
    ensures
        r == root(n),
        is_root(root(n), n),
{
    lemma_root_unique(r, root(n), n);
}

/// The integer square root of `n`, by bisection.
fn integer_root(n: u128) -> (r: u128)
    requires
        n < 0x1_0000_0000_0000_0000_0000_0000,
    ensures
        is_root(r as int, n as int),
        r == root(n as int),
        r < 0x1_0000_0000_0000,
{
    let mut low: u128 = 0;
    let mut high: u128 = 0x1_0000_0000_0000;
    assert(0x1_0000_0000_0000int * 0x1_0000_0000_0000int == 0x1_0000_0000_0000_0000_0000_0000int)
        by (nonlinear_arith);
    while high - low > 1
        invariant
            low < high <= 0x1_0000_0000_0000,
            low * low <= n < high * high,
        decreases high - low,
    {
        let middle: u128 = low + (high - low) / 2;
        assert(0 <= middle * middle < 0x1_0000_0000_0000_0000_0000_0000) by (nonlinear_arith)
            requires
                0 <= middle < 0x1_0000_0000_0000,
        ;
        if middle * middle <= n {
            low = middle;
        } else {
            high = middle;
        }
    }
    proof {
        lemma_root_is(low as int, n as int);
    }
    low
}

/// A component of a vector is never longer than the vector.
proof fn lemma_component_below_length(v: Vec3, c: int)
    requires
        c == v.x || c == v.y || c == v.z,
        length_squared(v) > 0,
    ensures
        length_scaled(v) >= 65536,
        -length_scaled(v) <= c * 65536 <= length_scaled(v),
        is_root(length_scaled(v), length_squared(v) * 0x1_0000_0000),
        0 <= length_squared(v) < 0x1_0000_0000_0000_0000,
{
    let n = length_squared(v) * 0x1_0000_0000;
    let x = v.x as int;
    let y = v.y as int;
    let z = v.z as int;
    assert(0 <= x * x <= 0x4000_0000_0000_0000) by (nonlinear_arith)
        requires
            -0x8000_0000 <= x <= 0x7fff_ffff,
    ;
    assert(0 <= y * y <= 0x4000_0000_0000_0000) by (nonlinear_arith)
        requires
            -0x8000_0000 <= y <= 0x7fff_ffff,
    ;
    assert(0 <= z * z <= 0x4000_0000_0000_0000) by (nonlinear_arith)
        requires
            -0x8000_0000 <= z <= 0x7fff_ffff,
    ;
    lemma_root_exists(n);
    let l = length_scaled(v);
    let m = if c < 0 {
        -c * 65536
    } else {
        c * 65536
    };
    assert(m * m == (c * c) * 0x1_0000_0000) by (nonlinear_arith)
        requires
            m == c * 65536 || m == -c * 65536,
    ;
    if m > l {
        assert((l + 1) * (l + 1) <= m * m) by (nonlinear_arith)
            requires
                0 <= l,
                l + 1 <= m,
        ;
    }
    if l < 65536 {
        assert((l + 1) * (l + 1) <= 65536 * 65536) by (nonlinear_arith)
            requires
                0 <= l,
                l + 1 <= 65536,
        ;
    }
}

/// Every number that is not negative has an integer square root.
proof fn lemma_root_exists(n: int)
    requires
        0 <= n,
    ensures
        is_root(root(n), n),
    decreases n,
{
    if n == 0 {
        assert(is_root(0, 0));
    } else {
        lemma_root_exists(n - 1);
        let r = root(n - 1);
        if (r + 1) * (r + 1) <= n {
            assert(n < (r + 2) * (r + 2)) by (nonlinear_arith)
                requires
                    (r + 1) * (r + 1) == n,
                    0 <= r,
            ;
            assert(is_root(r + 1, n));
        } else {
            assert(is_root(r, n));
        }
    }
}

/// The components of a unit vector lie between minus one whole and one
/// whole, and the zero vector stays zero.
pub proof fn lemma_unit_vector_range(v: Vec3)
    ensures
        -UNIT <= unit_vector(v).x <= UNIT,
        -UNIT <= unit_vector(v).y <= UNIT,
        -UNIT <= unit_vector(v).z <= UNIT,
        length_squared(v) == 0 ==> unit_vector(v) == (Vec3 { x: 0, y: 0, z: 0 }),
        length_squared(v) != 0 ==> {
            &&& length_scaled(v) >= 65536
            &&& unit_vector(v).x == unit_component(v.x as int, length_scaled(v))
            &&& unit_vector(v).y == unit_component(v.y as int, length_scaled(v))
            &&& unit_vector(v).z == unit_component(v.z as int, length_scaled(v))
        },
{
    let x = v.x as int;
    let y = v.y as int;
    let z = v.z as int;
    assert(0 <= x * x) by (nonlinear_arith);
    assert(0 <= y * y) by (nonlinear_arith);
    assert(0 <= z * z) by (nonlinear_arith);
    if length_squared(v) == 0 {
        lemma_root_is(0, 0);
    } else {
        lemma_component_scaled(v, x);
        lemma_component_scaled(v, y);
        lemma_component_scaled(v, z);
    }
}

/// A component of a vector that is not zero, brought to the scale of the
/// unit vector.
proof fn lemma_component_scaled(v: Vec3, c: int)
    requires
        c == v.x || c == v.y || c == v.z,
        length_squared(v) > 0,
    ensures
        length_scaled(v) >= 65536,
        -UNIT <= unit_component(c, length_scaled(v)) <= UNIT,
{
    lemma_component_below_length(v, c);
    let l = length_scaled(v);
    let d = 2 * l;
    let n = 2 * (c * (1000 * 65536)) + l;
    assert(c * (1000 * 65536) == (c * 65536) * 1000) by (nonlinear_arith);
    assert(d * 1000 == 2000 * l && d * (-1000) == -(2000 * l)) by (nonlinear_arith)
        requires
            d == 2 * l,
    ;
    vstd::arithmetic::div_mod::lemma_div_multiples_vanish_fancy(1000, l, d);
    lemma_div_multiples_vanish(-1000, d);
    lemma_div_is_ordered(d * (-1000), n, d);
    lemma_div_is_ordered(n, d * 1000 + l, d);
}

fn divide(v: i32, w: i32) -> (r: i32)
    requires
        w != 0,
    ensures
        r == perspective(v as int, w as int),
{
    let scaled: i128 = (v as i128) * 65536;
    let quotient: i128 = if w > 0 {
        floor_div(scaled, w as i128)
    } else {
        floor_div(-scaled, -(w as i128))
    };
    clamp_to(quotient, -0x8000_0000, 0x7fff_ffff) as i32
}

/// The vector of length one whole, in thousandths, that points the way `v`
/// points; the zero vector for the zero vector.
pub fn normalize(v: &Vec3) -> (n: Vec3)
    ensures
        n == unit_vector(*v),
        -UNIT <= n.x <= UNIT,
        -UNIT <= n.y <= UNIT,
        -UNIT <= n.z <= UNIT,
        length_squared(*v) == 0 ==> n == (Vec3 { x: 0, y: 0, z: 0 }),
        length_squared(*v) != 0 ==> {
            &&& n.x == unit_component(v.x as int, length_scaled(*v))
            &&& n.y == unit_component(v.y as int, length_scaled(*v))
            &&& n.z == unit_component(v.z as int, length_scaled(*v))
        },
{
    let x: i128 = v.x as i128;
    let y: i128 = v.y as i128;
    let z: i128 = v.z as i128;
    assert(0 <= x * x <= 0x4000_0000_0000_0000) by (nonlinear_arith)
        requires
            -0x8000_0000 <= x <= 0x7fff_ffff,
    ;
    assert(0 <= y * y <= 0x4000_0000_0000_0000) by (nonlinear_arith)
        requires
            -0x8000_0000 <= y <= 0x7fff_ffff,
    ;
    assert(0 <= z * z <= 0x4000_0000_0000_0000) by (nonlinear_arith)
        requires
            -0x8000_0000 <= z <= 0x7fff_ffff,
    ;
    let squared: u128 = (x * x + y * y + z * z) as u128;
    let length: i128 = integer_root(squared * 0x1_0000_0000) as i128;
    proof {
        lemma_unit_vector_range(*v);
    }
    if length == 0 {
        Vec3 { x: 0, y: 0, z: 0 }
    } else {
        Vec3 {
            x: floor_div(2 * (x * 65_536_000) + length, 2 * length) as i32,
            y: floor_div(2 * (y * 65_536_000) + length, 2 * length) as i32,
            z: floor_div(2 * (z * 65_536_000) + length, 2 * length) as i32,
        }
    }
}

/// Finishes the transform of one vertex.
///
/// `clip` is the vertex's position after the projection, view and model
/// matrices, in homogeneous coordinates: `x` and `y` in 256ths of a pixel
/// and `z` in units of depth, all before the division, and `w` in 65536ths.
/// `normal` is the vertex's normal after the normal matrix, in any unit.
///
/// A `w` of zero cannot be divided through and is reported as an error; the
/// caller gave a transform that has no inverse. Otherwise the position is
/// divided by `w` and the normal is brought to unit length; a normal of
/// length zero stays zero. The vertex's own attributes are kept.
pub fn vertex_shader(vertex: &Vertex, clip: &Vec4, normal: &Vec3) -> (r: Result<
    Vertex,
    TransformError,
>)
    ensures
        clip.w == 0 ==> r == Err::<Vertex, TransformError>(TransformError::ZeroW),
        clip.w != 0 ==> r == Ok::<Vertex, TransformError>(transformed(*vertex, *clip, *normal)),
{
    if clip.w == 0 {
        Err(TransformError::ZeroW)
    } else {
        Ok(
            Vertex {
                position: vertex.position,
                normal: vertex.normal,
                tex_coords: vertex.tex_coords,
                color: vertex.color,
                transformed_position: Vec3 {
                    x: divide(clip.x, clip.w),
                    y: divide(clip.y, clip.w),
                    z: divide(clip.z, clip.w),
                },
                transformed_normal: normalize(normal),
            },
        )
    }
}

/// Runs the transform over every vertex of a draw call.
///
/// One vertex whose `w` is zero fails the whole call: nothing of it is
/// handed on. Otherwise the result holds the transformed vertices in the
/// order of the inputs.
pub fn transform_vertices(inputs: &[Projected]) -> (r: Result<Vec<Vertex>, TransformError>)
    ensures
        divisible(inputs@) ==> r is Ok && r->Ok_0@ == transformed_all(inputs@),
        !divisible(inputs@) ==> r == Err::<Vec<Vertex>, TransformError>(TransformError::ZeroW),
{
    let count: usize = inputs.len();
    let mut vertices: Vec<Vertex> = Vec::new();
    let mut i: usize = 0;
    while i < count
        invariant
            i <= count,
            count == inputs@.len(),
            vertices.len() == i,
            forall|k: int| 0 <= k < i ==> (#[trigger] inputs@[k]).clip.w != 0,
            forall|k: int|
                0 <= k < i ==> #[trigger] vertices@[k] == transformed(
                    inputs@[k].vertex,
                    inputs@[k].clip,
                    inputs@[k].normal,
                ),
        decreases count - i,
    {
        let input: &Projected = &inputs[i];
        match vertex_shader(&input.vertex, &input.clip, &input.normal) {
            Ok(vertex) => {
                vertices.push(vertex);
            },
            Err(error) => {
                assert(inputs@[i as int].clip.w == 0);
                return Err(error);
            },
        }
        i += 1;
    }
    assert(vertices@ =~= transformed_all(inputs@));
    Ok(vertices)
}

} // verus!

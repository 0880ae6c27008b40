//! Digital lines between two pixels, as fragments or written straight into
//! a framebuffer.

use crate::color::Color;
use crate::fixed::{floor_div, SUBPIXEL, UNIT};
use crate::fragment::Fragment;
use crate::framebuffer::{Framebuffer, FramebufferView};
use crate::vertex::{Vec2, Vertex};
use vstd::arithmetic::div_mod::{
    lemma_div_is_ordered,
    lemma_div_multiples_vanish,
    lemma_fundamental_div_mod_converse,
};
use vstd::prelude::*;

verus! {

/// The distance between two coordinates.
pub open spec fn span(from: int, to: int) -> int {
    if from < to {
        to - from
    } else {
        from - to
    }
}

/// The coordinate `k` steps from `from` in the direction of `to`.
pub open spec fn toward(from: int, to: int, k: int) -> int {
    if from < to {
        from + k
    } else {
        from - k
    }
}

/// The length of the line along its dominant axis: the number of steps from
/// the first pixel to the last.
pub open spec fn line_major(x0: int, y0: int, x1: int, y1: int) -> int {
    if span(y0, y1) > span(x0, x1) {
        span(y0, y1)
    } else {
        span(x0, x1)
    }
}

/// The length of the line along its other axis.
pub open spec fn line_minor(x0: int, y0: int, x1: int, y1: int) -> int {
    if span(y0, y1) > span(x0, x1) {
        span(x0, x1)
    } else {
        span(y0, y1)
    }
}

/// How far a line has moved along its minor axis after `i` steps along its
/// major axis: `i * minor / major` rounded to the nearest integer, a half
/// rounded down.
pub open spec fn minor_offset(major: int, minor: int, i: int) -> int {
    if major == 0 {
        0
    } else {
        (2 * i * minor + major - 1) / (2 * major)
    }
}

/// The pixel of the line from `(x0, y0)` to `(x1, y1)` after `i` steps.
pub open spec fn line_pixel(x0: int, y0: int, x1: int, y1: int, i: int) -> (int, int) {
    let major = line_major(x0, y0, x1, y1);
    let minor = line_minor(x0, y0, x1, y1);
    if span(y0, y1) > span(x0, x1) {
        (toward(x0, x1, minor_offset(major, minor, i)), toward(y0, y1, i))
    } else {
        (toward(x0, x1, i), toward(y0, y1, minor_offset(major, minor, i)))
    }
}

/// The pixels of the line from `(x0, y0)` to `(x1, y1)`, first to last.
pub open spec fn line_pixels(x0: int, y0: int, x1: int, y1: int) -> Seq<Vec2> {
    Seq::new(
        (line_major(x0, y0, x1, y1) + 1) as nat,
        |i: int|
            Vec2 {
                x: line_pixel(x0, y0, x1, y1, i).0 as i32,
                y: line_pixel(x0, y0, x1, y1, i).1 as i32,
            },
    )
}

/// The depth after `i` of `major` steps from depth `z0` to depth `z1`,
/// rounded toward minus infinity. A line of one pixel has the first depth.
pub open spec fn line_depth(z0: int, z1: int, major: int, i: int) -> int {
    if major == 0 {
        z0
    } else {
        z0 + (z1 - z0) * i / major
    }
}

/// The pixel of a screen coordinate in 256ths: the whole pixels in it, the
/// fraction cut off. A negative coordinate is cut toward zero like a
/// positive one, so the coordinates from -255 to 255 all give pixel 0.
pub open spec fn pixel_of(v: int) -> int {
    if v >= 0 {
        v / (SUBPIXEL as int)
    } else {
        -((-v) / (SUBPIXEL as int))
    }
}

/// What writing a run of pixels does to a framebuffer: each pixel in turn
/// goes through the depth-tested write, at one depth and in one colour.
pub open spec fn plot(fb: FramebufferView, pixels: Seq<Vec2>, depth: i32, color: u32)
    -> FramebufferView
    decreases pixels.len(),
{
    if pixels.len() == 0 {
        fb
    } else {
        plot(fb, pixels.drop_last(), depth, color).write(
            pixels.last().x as int,
            pixels.last().y as int,
            depth,
            color,
        )
    }
}

/// What drawing the line between two transformed vertices does to a
/// framebuffer: the pixels of the line between the pixels of the two screen
/// positions are written in `color` at depth zero.
pub open spec fn drawn_line(fb: FramebufferView, p1: Vertex, p2: Vertex, color: u32)
    -> FramebufferView {
    plot(
        fb,
        line_pixels(
            pixel_of(p1.transformed_position.x as int),
            pixel_of(p1.transformed_position.y as int),
            pixel_of(p2.transformed_position.x as int),
            pixel_of(p2.transformed_position.y as int),
        ),
        0,
        color,
    )
}

/// A screen coordinate is cut to its pixel toward zero: the pixel is never
/// farther from zero than the coordinate, by less than one pixel, and a
/// coordinate and its mirror image give mirrored pixels.
pub proof fn lemma_pixel_of(v: int)
    ensures
        pixel_of(-v) == -pixel_of(v),
        v >= 0 ==> pixel_of(v) * 256 <= v < pixel_of(v) * 256 + 256,
        v <= 0 ==> pixel_of(v) * 256 - 256 < v <= pixel_of(v) * 256,
{
}

/// The minor offset is zero at the first pixel, the whole minor length at
/// the last, and in between never runs ahead of the major axis.
pub proof fn lemma_minor_offset_range(major: int, minor: int, i: int)
    requires
        0 <= minor <= major,
        0 <= i <= major,
    ensures
        0 <= minor_offset(major, minor, i) <= minor,
        minor_offset(major, minor, i) <= i,
        minor_offset(major, minor, 0) == 0,
        minor_offset(major, minor, major) == minor,
{
    if major > 0 {
        let d = 2 * major;
        assert(0 <= 2 * i * minor <= 2 * major * minor) by (nonlinear_arith)
            requires
                0 <= minor,
                0 <= i <= major,
        ;
        assert(2 * major * minor == minor * d) by (nonlinear_arith)
            requires
                d == 2 * major,
        ;
        assert(2 * i * minor <= i * d) by (nonlinear_arith)
            requires
                d == 2 * major,
                0 <= minor <= major,
                0 <= i,
        ;
        lemma_fundamental_div_mod_converse(major - 1, d, 0, major - 1);
        lemma_fundamental_div_mod_converse(minor * d + major - 1, d, minor, major - 1);
        lemma_fundamental_div_mod_converse(i * d + major - 1, d, i, major - 1);
        lemma_div_is_ordered(2 * i * minor + major - 1, minor * d + major - 1, d);
        lemma_div_is_ordered(2 * i * minor + major - 1, i * d + major - 1, d);
        assert(2 * 0 * minor == 0) by (nonlinear_arith);
    }
}

/// A line starts at its first endpoint and ends at its second, and every
/// pixel of it lies in the box that the endpoints span.
pub proof fn lemma_line_pixel_range(x0: int, y0: int, x1: int, y1: int, i: int)
    requires
        0 <= i <= line_major(x0, y0, x1, y1),
    ensures
        line_pixel(x0, y0, x1, y1, 0) == (x0, y0),
        line_pixel(x0, y0, x1, y1, line_major(x0, y0, x1, y1)) == (x1, y1),
        x0 <= x1 ==> x0 <= line_pixel(x0, y0, x1, y1, i).0 <= x1,
        x1 <= x0 ==> x1 <= line_pixel(x0, y0, x1, y1, i).0 <= x0,
        y0 <= y1 ==> y0 <= line_pixel(x0, y0, x1, y1, i).1 <= y1,
        y1 <= y0 ==> y1 <= line_pixel(x0, y0, x1, y1, i).1 <= y0,
{
    let major = line_major(x0, y0, x1, y1);
    let minor = line_minor(x0, y0, x1, y1);
    lemma_minor_offset_range(major, minor, i);
}

/// From one step to the next the minor offset stays or grows by one.
proof fn lemma_minor_offset_step(major: int, minor: int, i: int)
    requires
        0 <= minor <= major,
        0 <= i < major,
    ensures
        minor_offset(major, minor, i) <= minor_offset(major, minor, i + 1) <= minor_offset(
            major,
            minor,
            i,
        ) + 1,
{
    let d = 2 * major;
    let n = 2 * i * minor + major - 1;
    assert(2 * (i + 1) * minor == 2 * i * minor + 2 * minor) by (nonlinear_arith);
    lemma_div_is_ordered(n, n + 2 * minor, d);
    lemma_div_is_ordered(n + 2 * minor, n + d, d);
    vstd::arithmetic::div_mod::lemma_div_plus_one(n, d);
}

/// A line has no holes: each pixel is a neighbour of the one before it, one
/// step further along the dominant axis and at most one along the other.
pub proof fn lemma_line_connected(x0: int, y0: int, x1: int, y1: int, i: int)
    requires
        0 <= i < line_major(x0, y0, x1, y1),
    ensures
        span(line_pixel(x0, y0, x1, y1, i).0, line_pixel(x0, y0, x1, y1, i + 1).0) <= 1,
        span(line_pixel(x0, y0, x1, y1, i).1, line_pixel(x0, y0, x1, y1, i + 1).1) <= 1,
        span(y0, y1) > span(x0, x1) ==> span(
            line_pixel(x0, y0, x1, y1, i).1,
            line_pixel(x0, y0, x1, y1, i + 1).1,
        ) == 1,
        span(y0, y1) <= span(x0, x1) ==> span(
            line_pixel(x0, y0, x1, y1, i).0,
            line_pixel(x0, y0, x1, y1, i + 1).0,
        ) == 1,
{
    lemma_minor_offset_step(line_major(x0, y0, x1, y1), line_minor(x0, y0, x1, y1), i);
}

/// No pixel occurs twice in a line: two different steps give two different
/// pixels.
pub proof fn lemma_line_distinct(x0: int, y0: int, x1: int, y1: int, i: int, j: int)
    requires
        0 <= i < j <= line_major(x0, y0, x1, y1),
    ensures
        line_pixel(x0, y0, x1, y1, i) != line_pixel(x0, y0, x1, y1, j),
{
}

/// The interpolated depth of a line stays between the depths of its ends.
pub proof fn lemma_line_depth_range(z0: int, z1: int, major: int, i: int)
    requires
        0 <= i <= major,
    ensures
        z0 <= z1 ==> z0 <= line_depth(z0, z1, major, i) <= z1,
        z1 <= z0 ==> z1 <= line_depth(z0, z1, major, i) <= z0,
        line_depth(z0, z1, major, 0) == z0,
        major > 0 ==> line_depth(z0, z1, major, major) == z1,
{
    if major > 0 {
        let dz = z1 - z0;
        assert(dz * major == major * dz) by (nonlinear_arith);
        lemma_div_multiples_vanish(dz, major);
        if dz >= 0 {
            assert(0 <= dz * i <= dz * major) by (nonlinear_arith)
                requires
                    0 <= dz,
                    0 <= i <= major,
            ;
            lemma_div_is_ordered(dz * i, dz * major, major);
        } else {
            assert(dz * major <= dz * i <= 0) by (nonlinear_arith)
                requires
                    dz <= 0,
                    0 <= i <= major,
            ;
            lemma_div_is_ordered(dz * i, 0, major);
            lemma_div_is_ordered(dz * major, dz * i, major);
        }
    }
}

/// Whether one of the pixels is `(x, y)`.
pub open spec fn on_path(pixels: Seq<Vec2>, x: int, y: int) -> bool {
    exists|i: int| 0 <= i < pixels.len() && (#[trigger] pixels[i]).x == x && pixels[i].y == y
}

/// What a run of writes leaves at one pixel of the framebuffer: a pixel on
/// the run that held a farther depth shows the colour at the depth of the
/// run, and every other pixel is as it was.
pub proof fn lemma_plot_effect(
    fb: FramebufferView,
    pixels: Seq<Vec2>,
    depth: i32,
    color: u32,
    x: int,
    y: int,
)
    requires
        fb.wf(),
        fb.in_bounds(x, y),
    ensures
        plot(fb, pixels, depth, color).wf(),
        plot(fb, pixels, depth, color).width == fb.width,
        plot(fb, pixels, depth, color).height == fb.height,
        on_path(pixels, x, y) && depth < fb.depth_at(x, y) ==> plot(
            fb,
            pixels,
            depth,
            color,
        ).depth_at(x, y) == depth && plot(fb, pixels, depth, color).color_at(x, y) == color,
        !(on_path(pixels, x, y) && depth < fb.depth_at(x, y)) ==> plot(
            fb,
            pixels,
            depth,
            color,
        ).depth_at(x, y) == fb.depth_at(x, y) && plot(fb, pixels, depth, color).color_at(x, y)
            == fb.color_at(x, y),
    decreases pixels.len(),
{
    if pixels.len() > 0 {
        let shorter = pixels.drop_last();
        let last = pixels.last();
        let before = plot(fb, shorter, depth, color);
        lemma_plot_effect(fb, shorter, depth, color, x, y);
        before.lemma_write_wf(last.x as int, last.y as int, depth, color);
        if before.in_bounds(last.x as int, last.y as int) {
            before.lemma_write_keeps_nearest(last.x as int, last.y as int, depth, color);
        }
        assert(pixels[pixels.len() - 1] == last);
        if on_path(shorter, x, y) {
            let i = choose|i: int|
                0 <= i < shorter.len() && (#[trigger] shorter[i]).x == x && shorter[i].y == y;
            assert(pixels[i] == shorter[i]);
        }
        if on_path(pixels, x, y) && !(last.x == x && last.y == y) {
            let i = choose|i: int|
                0 <= i < pixels.len() && (#[trigger] pixels[i]).x == x && pixels[i].y == y;
            assert(shorter[i] == pixels[i]);
        }
    }
}

fn distance(from: i32, to: i32) -> (d: i64)
    ensures
        d == span(from as int, to as int),
        0 <= d <= 0xffff_ffff,
{
    if from < to {
        to as i64 - from as i64
    } else {
        from as i64 - to as i64
    }
}

fn advance(from: i32, to: i32, k: i64) -> (c: i32)
    requires
        0 <= k <= span(from as int, to as int),
    ensures
        c == toward(from as int, to as int, k as int),
{
    if from < to {
        (from as i64 + k) as i32
    } else {
        (from as i64 - k) as i32
    }
}

/// The pixels of the line from `(x0, y0)` to `(x1, y1)`, first to last.
///
/// The walk takes one step along the dominant axis at a time and keeps the
/// remainder of the minor axis in an integer error term, so the line has
/// exactly `max(|x1 - x0|, |y1 - y0|) + 1` pixels.
pub fn trace(x0: i32, y0: i32, x1: i32, y1: i32) -> (pixels: Vec<Vec2>)
    ensures
        pixels.len() == line_major(x0 as int, y0 as int, x1 as int, y1 as int) + 1,
        forall|i: int|
            0 <= i < pixels.len() ==> (#[trigger] pixels[i]).x == line_pixel(
                x0 as int,
                y0 as int,
                x1 as int,
                y1 as int,
                i,
            ).0 && pixels[i].y == line_pixel(x0 as int, y0 as int, x1 as int, y1 as int, i).1,
        pixels@ == line_pixels(x0 as int, y0 as int, x1 as int, y1 as int),
{
    let dx: i64 = distance(x0, x1);
    let dy: i64 = distance(y0, y1);
    let steep: bool = dy > dx;
    let major: i64 = if steep {
        dy
    } else {
        dx
    };
    let minor: i64 = if steep {
        dx
    } else {
        dy
    };
    let ghost target = line_pixels(x0 as int, y0 as int, x1 as int, y1 as int);
    let mut pixels: Vec<Vec2> = Vec::new();
    let mut i: i64 = 0;
    let mut offset: i64 = 0;
    let mut rest: i64 = major - 1;
    while i < major
        invariant
            0 <= i <= major,
            0 <= minor <= major <= 0xffff_ffff,
            major == line_major(x0 as int, y0 as int, x1 as int, y1 as int),
            minor == line_minor(x0 as int, y0 as int, x1 as int, y1 as int),
            steep == (span(y0 as int, y1 as int) > span(x0 as int, x1 as int)),
            major > 0 ==> 0 <= rest < 2 * major,
            2 * i * minor + major - 1 == offset * (2 * major) + rest,
            0 <= offset,
            target == line_pixels(x0 as int, y0 as int, x1 as int, y1 as int),
            pixels.len() == i,
            forall|k: int| 0 <= k < i ==> pixels@[k] == target[k],
        decreases major - i,
    {
        proof {
            lemma_fundamental_div_mod_converse(
                2 * i * minor + major - 1,
                2 * major,
                offset as int,
                rest as int,
            );
            lemma_minor_offset_range(major as int, minor as int, i as int);
            lemma_line_pixel_range(x0 as int, y0 as int, x1 as int, y1 as int, i as int);
        }
        let pixel: Vec2 = if steep {
            Vec2 { x: advance(x0, x1, offset), y: advance(y0, y1, i) }
        } else {
            Vec2 { x: advance(x0, x1, i), y: advance(y0, y1, offset) }
        };
        pixels.push(pixel);
        proof {
            assert(2 * (i + 1) * minor == 2 * i * minor + 2 * minor) by (nonlinear_arith);
            assert((offset + 1) * (2 * major) == offset * (2 * major) + 2 * major)
                by (nonlinear_arith);
        }
        i += 1;
        rest += 2 * minor;
        if rest >= 2 * major {
            rest -= 2 * major;
            offset += 1;
        }
    }
    proof {
        if major > 0 {
            lemma_fundamental_div_mod_converse(
                2 * i * minor + major - 1,
                2 * major,
                offset as int,
                rest as int,
            );
        }
        lemma_minor_offset_range(major as int, minor as int, major as int);
        lemma_line_pixel_range(x0 as int, y0 as int, x1 as int, y1 as int, major as int);
    }
    pixels.push(Vec2 { x: x1, y: y1 });
    assert(pixels@ =~= target);
    assert forall|i: int| 0 <= i < pixels.len() implies (#[trigger] pixels[i]).x == line_pixel(
        x0 as int,
        y0 as int,
        x1 as int,
        y1 as int,
        i,
    ).0 && pixels[i].y == line_pixel(x0 as int, y0 as int, x1 as int, y1 as int, i).1 by {
        lemma_line_pixel_range(x0 as int, y0 as int, x1 as int, y1 as int, i);
    }
    pixels
}

fn pixel_coordinate(v: i32) -> (p: i32)
    ensures
        p == pixel_of(v as int),
{
    if v >= 0 {
        v / 256
    } else {
        let mirrored: i64 = -(v as i64);
        (-(mirrored / 256)) as i32
    }
}

fn depth_along(z0: i32, z1: i32, major: i64, i: i64) -> (z: i32)
    requires
        0 <= i <= major <= 0xffff_ffff,
    ensures
        z == line_depth(z0 as int, z1 as int, major as int, i as int),
{
    if major == 0 {
        z0
    } else {
        proof {
            lemma_line_depth_range(z0 as int, z1 as int, major as int, i as int);
            assert(-0x1_0000_0000_0000_0000 <= (z1 - z0) * i <= 0x1_0000_0000_0000_0000)
                by (nonlinear_arith)
                requires
                    -0x1_0000_0000 <= z1 - z0 <= 0x1_0000_0000,
                    0 <= i <= 0xffff_ffff,
            ;
        }
        let rise: i128 = (z1 as i128 - z0 as i128) * (i as i128);
        (z0 as i128 + floor_div(rise, major as i128)) as i32
    }
}

/// The fragments of the line between two transformed vertices, one per
/// pixel, first to last.
///
/// The line runs between the pixels of the two screen positions, each
/// coordinate cut to whole pixels toward zero.
/// Depth moves evenly from the first vertex to the second along the steps of
/// the dominant axis, so a vertical line needs no special case. Every
/// fragment is fully lit and stands for the first vertex's object-space
/// position.
pub fn line(a: &Vertex, b: &Vertex) -> (fragments: Vec<Fragment>)
    ensures
        ({
            let x0 = pixel_of(a.transformed_position.x as int);
            let y0 = pixel_of(a.transformed_position.y as int);
            let x1 = pixel_of(b.transformed_position.x as int);
            let y1 = pixel_of(b.transformed_position.y as int);
            let major = line_major(x0, y0, x1, y1);
            &&& fragments.len() == major + 1
            &&& forall|i: int|
                0 <= i <= major ==> {
                    &&& (#[trigger] fragments[i]).position.x == line_pixel(x0, y0, x1, y1, i).0
                    &&& fragments[i].position.y == line_pixel(x0, y0, x1, y1, i).1
                    &&& fragments[i].depth == line_depth(
                        a.transformed_position.z as int,
                        b.transformed_position.z as int,
                        major,
                        i,
                    )
                    &&& fragments[i].intensity == UNIT
                    &&& fragments[i].vertex_position == a.position
                }
            &&& fragments[0].position.x == x0
            &&& fragments[0].position.y == y0
            &&& fragments[major].position.x == x1
            &&& fragments[major].position.y == y1
        }),
{
    let x0: i32 = pixel_coordinate(a.transformed_position.x);
    let y0: i32 = pixel_coordinate(a.transformed_position.y);
    let x1: i32 = pixel_coordinate(b.transformed_position.x);
    let y1: i32 = pixel_coordinate(b.transformed_position.y);
    let z0: i32 = a.transformed_position.z;
    let z1: i32 = b.transformed_position.z;
    let pixels: Vec<Vec2> = trace(x0, y0, x1, y1);
    let count: usize = pixels.len();
    let ghost major = line_major(x0 as int, y0 as int, x1 as int, y1 as int);
    let mut fragments: Vec<Fragment> = Vec::new();
    let mut i: usize = 0;
    while i < count
        invariant
            i <= count,
            count == pixels.len(),
            count == major + 1,
            major <= 0xffff_ffff,
            forall|k: int|
                0 <= k < count ==> (#[trigger] pixels[k]).x == line_pixel(
                    x0 as int,
                    y0 as int,
                    x1 as int,
                    y1 as int,
                    k,
                ).0 && pixels[k].y == line_pixel(x0 as int, y0 as int, x1 as int, y1 as int, k).1,
            fragments.len() == i,
            forall|k: int|
                0 <= k < i ==> {
                    &&& (#[trigger] fragments[k]).position == pixels[k]
                    &&& fragments[k].depth == line_depth(z0 as int, z1 as int, major, k)
                    &&& fragments[k].intensity == UNIT
                    &&& fragments[k].vertex_position == a.position
                },
        decreases count - i,
    {
        let depth: i32 = depth_along(z0, z1, (count - 1) as i64, i as i64);
        fragments.push(Fragment::new(pixels[i], depth, UNIT, a.position));
        i += 1;
    }
    proof {
        lemma_line_pixel_range(x0 as int, y0 as int, x1 as int, y1 as int, 0);
    }
    fragments
}

/// Draws the line between two transformed vertices into the framebuffer in
/// one colour, without shading: every pixel of the line that lies inside
/// the buffer is written at depth zero under the depth test.
pub fn draw_line(p1: &Vertex, p2: &Vertex, framebuffer: &mut Framebuffer, color: Color)
    requires
        old(framebuffer).wf(),
    ensures
        final(framebuffer).wf(),
        final(framebuffer)@ == drawn_line(
            old(framebuffer)@,
            *p1,
            *p2,
            color.spec_to_hex() as u32,
        ),
        final(framebuffer)@.width == old(framebuffer)@.width,
        final(framebuffer)@.height == old(framebuffer)@.height,
{
    let x0: i32 = pixel_coordinate(p1.transformed_position.x);
    let y0: i32 = pixel_coordinate(p1.transformed_position.y);
    let x1: i32 = pixel_coordinate(p2.transformed_position.x);
    let y1: i32 = pixel_coordinate(p2.transformed_position.y);
    let pixels: Vec<Vec2> = trace(x0, y0, x1, y1);
    let hex: u32 = color.to_hex();
    let mut i: usize = 0;
    while i < pixels.len()
        invariant
            i <= pixels.len(),
            framebuffer.wf(),
            framebuffer@ == plot(old(framebuffer)@, pixels@.take(i as int), 0, hex),
            framebuffer@.width == old(framebuffer)@.width,
            framebuffer@.height == old(framebuffer)@.height,
        decreases pixels.len() - i,
    {
        assert(pixels@.take(i + 1).drop_last() =~= pixels@.take(i as int));
        framebuffer.write(pixels[i].x, pixels[i].y, 0, hex);
        i += 1;
    }
    assert(pixels@.take(i as int) =~= pixels@);
}

} // verus!

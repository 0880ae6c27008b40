//! The pipeline: from a list of transformed vertices to shaded pixels in a
//! framebuffer.

use crate::color::Color;
use crate::fragment::{Fragment, Samples, ShaderKind};
use crate::framebuffer::{Framebuffer, FramebufferView};
use crate::line::{draw_line, drawn_line};
use crate::shaders::{divisible, transform_vertices, transformed_all, Projected, TransformError};
use crate::triangle::{raster, triangle};
use crate::vertex::Vertex;
use vstd::prelude::*;

verus! {

/// The fragments of the first `n` triangles of a triangle list, triangle
/// after triangle, each in scan order.
pub open spec fn assembled(vertices: Seq<Vertex>, n: nat) -> Seq<Fragment>
    decreases n,
{
    if n == 0 {
        Seq::empty()
    } else {
        assembled(vertices, (n - 1) as nat) + raster(
            vertices[3 * (n - 1)],
            vertices[3 * (n - 1) + 1],
            vertices[3 * (n - 1) + 2],
        )
    }
}

/// The fragments of a triangle list. Each three vertices in a row make one
/// triangle; one or two vertices left over at the end make none.
pub open spec fn fragments_of(vertices: Seq<Vertex>) -> Seq<Fragment> {
    assembled(vertices, (vertices.len() / 3) as nat)
}

/// What shading the first `n` fragments does to a framebuffer: each
/// fragment in turn is shaded by the strategy from its samples and goes
/// through the bounds-checked, depth-tested write.
pub open spec fn shaded(
    fb: FramebufferView,
    fragments: Seq<Fragment>,
    samples: Seq<Samples>,
    kind: ShaderKind,
    n: nat,
) -> FramebufferView
    decreases n,
{
    if n == 0 {
        fb
    } else {
        let f = fragments[n - 1];
        shaded(fb, fragments, samples, kind, (n - 1) as nat).write(
            f.position.x as int,
            f.position.y as int,
            f.depth,
            kind.spec_shade(f, samples[n - 1]).spec_to_hex() as u32,
        )
    }
}

/// Whether `samples` holds, for every fragment inside the framebuffer, a
/// value that the sampler can return for it.
pub open spec fn sampled_by<S: Fn(&Fragment) -> Samples>(
    sampler: S,
    fb: FramebufferView,
    fragments: Seq<Fragment>,
    samples: Seq<Samples>,
) -> bool {
    &&& samples.len() == fragments.len()
    &&& forall|i: int|
        0 <= i < fragments.len() && fb.in_bounds(
            fragments[i].position.x as int,
            fragments[i].position.y as int,
        ) ==> call_ensures(sampler, (&fragments[i],), #[trigger] samples[i])
}

/// What drawing the first `n` segments of a closed path does to a
/// framebuffer: segment `i` runs from point `i` to the point after it, the
/// last one back to the first.
pub open spec fn orbit(fb: FramebufferView, points: Seq<Vertex>, color: u32, n: nat)
    -> FramebufferView
    decreases n,
{
    if n == 0 {
        fb
    } else {
        drawn_line(
            orbit(fb, points, color, (n - 1) as nat),
            points[n - 1],
            points[(n as int) % (points.len() as int)],
            color,
        )
    }
}

/// Shading does not look at samples beyond the fragments it has reached.
proof fn lemma_shaded_ignores_later(
    fb: FramebufferView,
    fragments: Seq<Fragment>,
    samples: Seq<Samples>,
    more: Samples,
    kind: ShaderKind,
    n: nat,
)
    requires
        n <= samples.len(),
    ensures
        shaded(fb, fragments, samples.push(more), kind, n) == shaded(
            fb,
            fragments,
            samples,
            kind,
            n,
        ),
    decreases n,
{
    if n > 0 {
        lemma_shaded_ignores_later(fb, fragments, samples, more, kind, (n - 1) as nat);
        assert(samples.push(more)[n - 1] == samples[n - 1]);
    }
}

/// Shading keeps the shape of the framebuffer.
pub proof fn lemma_shaded_wf(
    fb: FramebufferView,
    fragments: Seq<Fragment>,
    samples: Seq<Samples>,
    kind: ShaderKind,
    n: nat,
)
    requires
        fb.wf(),
    ensures
        shaded(fb, fragments, samples, kind, n).wf(),
        shaded(fb, fragments, samples, kind, n).width == fb.width,
        shaded(fb, fragments, samples, kind, n).height == fb.height,
    decreases n,
{
    if n > 0 {
        lemma_shaded_wf(fb, fragments, samples, kind, (n - 1) as nat);
        let f = fragments[n - 1];
        shaded(fb, fragments, samples, kind, (n - 1) as nat).lemma_write_wf(
            f.position.x as int,
            f.position.y as int,
            f.depth,
            kind.spec_shade(f, samples[n - 1]).spec_to_hex() as u32,
        );
    }
}

/// The depth buffer keeps the nearest: after the first `n` fragments, a
/// pixel is no farther than it was and no farther than any fragment that
/// fell on it, and it shows either what it showed before or, at that
/// fragment's depth, the colour of one of the fragments that fell on it.
pub proof fn lemma_shaded_nearest(
    fb: FramebufferView,
    fragments: Seq<Fragment>,
    samples: Seq<Samples>,
    kind: ShaderKind,
    n: nat,
    x: int,
    y: int,
)
    requires
        fb.wf(),
        fb.in_bounds(x, y),
        n <= fragments.len(),
    ensures
        shaded(fb, fragments, samples, kind, n).depth_at(x, y) <= fb.depth_at(x, y),
        forall|i: int|
            0 <= i < n && (#[trigger] fragments[i]).position.x == x && fragments[i].position.y == y
                ==> shaded(fb, fragments, samples, kind, n).depth_at(x, y) <= fragments[i].depth,
        (shaded(fb, fragments, samples, kind, n).depth_at(x, y) == fb.depth_at(x, y) && shaded(
            fb,
            fragments,
            samples,
            kind,
            n,
        ).color_at(x, y) == fb.color_at(x, y)) || (exists|i: int|
            0 <= i < n && (#[trigger] fragments[i]).position.x == x && fragments[i].position.y == y
                && shaded(fb, fragments, samples, kind, n).depth_at(x, y) == fragments[i].depth
                && shaded(fb, fragments, samples, kind, n).color_at(x, y) == kind.spec_shade(
                fragments[i],
                samples[i],
            ).spec_to_hex()),
    decreases n,
{
    if n > 0 {
        let m = (n - 1) as nat;
        let f = fragments[n - 1];
        let before = shaded(fb, fragments, samples, kind, m);
        let after = shaded(fb, fragments, samples, kind, n);
        let color = kind.spec_shade(f, samples[n - 1]).spec_to_hex() as u32;
        lemma_shaded_nearest(fb, fragments, samples, kind, m, x, y);
        lemma_shaded_wf(fb, fragments, samples, kind, m);
        kind.spec_shade(f, samples[n - 1]).lemma_hex_round_trip();
        if before.in_bounds(f.position.x as int, f.position.y as int) {
            before.lemma_write_keeps_nearest(f.position.x as int, f.position.y as int, f.depth, color);
        }
        if f.position.x == x && f.position.y == y && f.depth < before.depth_at(x, y) {
            assert(after.depth_at(x, y) == fragments[n - 1].depth);
        } else {
            assert(after.depth_at(x, y) == before.depth_at(x, y));
            assert(after.color_at(x, y) == before.color_at(x, y));
        }
    }
}

/// Rasterizes a triangle list: the fragments of every triangle, in the
/// order of the list. Vertices left over after the last whole triangle are
/// dropped.
pub fn rasterize(vertex_array: &[Vertex]) -> (fragments: Vec<Fragment>)
    ensures
        fragments@ == fragments_of(vertex_array@),
{
    let count: usize = vertex_array.len() / 3;
    let mut fragments: Vec<Fragment> = Vec::new();
    let mut k: usize = 0;
    while k < count
        invariant
            k <= count,
            count == vertex_array@.len() / 3,
            vertex_array@.len() <= usize::MAX,
            fragments@ == assembled(vertex_array@, k as nat),
        decreases count - k,
    {
        let mut next: Vec<Fragment> = triangle(
            &vertex_array[3 * k],
            &vertex_array[3 * k + 1],
            &vertex_array[3 * k + 2],
        );
        fragments.append(&mut next);
        k += 1;
    }
    fragments
}

/// Shades fragments whose samples are already at hand: each fragment in
/// turn is shaded from the samples at its place in `samples` and written
/// under the bounds check and the depth test. Fragments beyond the end of
/// `samples` are left out.
pub fn shade_fragments(
    framebuffer: &mut Framebuffer,
    fragments: &[Fragment],
    samples: &[Samples],
    shader_type: &str,
)
    requires
        old(framebuffer).wf(),
    ensures
        final(framebuffer).wf(),
        final(framebuffer)@ == shaded(
            old(framebuffer)@,
            fragments@,
            samples@,
            ShaderKind::spec_from_tag(shader_type@),
            if fragments@.len() <= samples@.len() {
                fragments@.len()
            } else {
                samples@.len()
            },
        ),
{
    let kind: ShaderKind = ShaderKind::from_tag(shader_type);
    let count: usize = if fragments.len() <= samples.len() {
        fragments.len()
    } else {
        samples.len()
    };
    let mut i: usize = 0;
    while i < count
        invariant
            i <= count,
            count <= fragments@.len(),
            count <= samples@.len(),
            framebuffer.wf(),
            framebuffer@ == shaded(old(framebuffer)@, fragments@, samples@, kind, i as nat),
        decreases count - i,
    {
        let fragment: &Fragment = &fragments[i];
        let color: Color = kind.shade(fragment, &samples[i]);
        framebuffer.write(fragment.position.x, fragment.position.y, fragment.depth, color.to_hex());
        i += 1;
    }
}

/// One draw call: rasterizes the triangle list, shades every fragment that
/// falls inside the framebuffer and writes it under the depth test.
///
/// The vertices are taken as already transformed. `sampler` stands for the
/// fields that the strategies read: it is asked once for every fragment
/// inside the framebuffer, in order, and for no other.
pub fn render<S: Fn(&Fragment) -> Samples>(
    framebuffer: &mut Framebuffer,
    sampler: S,
    vertex_array: &[Vertex],
    shader_type: &str,
)
    requires
        old(framebuffer).wf(),
        forall|i: int|
            0 <= i < fragments_of(vertex_array@).len() && old(framebuffer)@.in_bounds(
                fragments_of(vertex_array@)[i].position.x as int,
                fragments_of(vertex_array@)[i].position.y as int,
            ) ==> call_requires(sampler, (&#[trigger] fragments_of(vertex_array@)[i],)),
    ensures
        final(framebuffer).wf(),
        exists|samples: Seq<Samples>|
            {
                &&& sampled_by(sampler, old(framebuffer)@, fragments_of(vertex_array@), samples)
                &&& final(framebuffer)@ == shaded(
                    old(framebuffer)@,
                    fragments_of(vertex_array@),
                    samples,
                    ShaderKind::spec_from_tag(shader_type@),
                    fragments_of(vertex_array@).len(),
                )
            },
{
    let fragments: Vec<Fragment> = rasterize(vertex_array);
    let kind: ShaderKind = ShaderKind::from_tag(shader_type);
    let ghost mut samples: Seq<Samples> = Seq::empty();
    let mut i: usize = 0;
    while i < fragments.len()
        invariant
            i <= fragments.len(),
            framebuffer.wf(),
            old(framebuffer)@.wf(),
            framebuffer@.width == old(framebuffer)@.width,
            framebuffer@.height == old(framebuffer)@.height,
            samples.len() == i,
            forall|k: int|
                0 <= k < fragments.len() && old(framebuffer)@.in_bounds(
                    fragments[k].position.x as int,
                    fragments[k].position.y as int,
                ) ==> call_requires(sampler, (&#[trigger] fragments[k],)),
            forall|k: int|
                0 <= k < i && old(framebuffer)@.in_bounds(
                    fragments[k].position.x as int,
                    fragments[k].position.y as int,
                ) ==> call_ensures(sampler, (&fragments[k],), #[trigger] samples[k]),
            framebuffer@ == shaded(old(framebuffer)@, fragments@, samples, kind, i as nat),
        decreases fragments.len() - i,
    {
        let fragment: &Fragment = &fragments[i];
        let x: i32 = fragment.position.x;
        let y: i32 = fragment.position.y;
        let ghost before = samples;
        if x >= 0 && y >= 0 && (x as usize) < framebuffer.width() && (y as usize)
            < framebuffer.height() {
            let fields: Samples = sampler(fragment);
            let color: Color = kind.shade(fragment, &fields);
            proof {
                samples = samples.push(fields);
            }
            framebuffer.write(x, y, fragment.depth, color.to_hex());
        } else {
            proof {
                samples = samples.push(arbitrary());
            }
        }
        proof {
            lemma_shaded_ignores_later(
                old(framebuffer)@,
                fragments@,
                before,
                samples[i as int],
                kind,
                i as nat,
            );
            lemma_shaded_wf(old(framebuffer)@, fragments@, samples, kind, (i + 1) as nat);
        }
        i += 1;
    }
    proof {
        assert(sampled_by(sampler, old(framebuffer)@, fragments@, samples));
    }
}

/// Draws a closed path in one colour: a line from every point to the next
/// and from the last back to the first.
pub fn render_orbit(framebuffer: &mut Framebuffer, points: &[Vertex], color: Color)
    requires
        old(framebuffer).wf(),
    ensures
        final(framebuffer).wf(),
        final(framebuffer)@ == orbit(
            old(framebuffer)@,
            points@,
            color.spec_to_hex() as u32,
            points@.len(),
        ),
{
    let count: usize = points.len();
    let mut i: usize = 0;
    while i < count
        invariant
            i <= count,
            count == points@.len(),
            framebuffer.wf(),
            framebuffer@ == orbit(old(framebuffer)@, points@, color.spec_to_hex() as u32, i as nat),
        decreases count - i,
    {
        let p1: &Vertex = &points[i];
        let p2: &Vertex = &points[(i + 1) % count];
        draw_line(p1, p2, framebuffer, color);
        i += 1;
    }
}

/// One draw call from the transform on: transforms every vertex, then
/// rasterizes, shades and writes as `render` does.
///
/// A vertex whose `w` is zero ends the call with an error before anything
/// is drawn: the framebuffer is as it was and the sampler is not asked.
pub fn draw_call<S: Fn(&Fragment) -> Samples>(
    framebuffer: &mut Framebuffer,
    sampler: S,
    inputs: &[Projected],
    shader_type: &str,
) -> (r: Result<(), TransformError>)
    requires
        old(framebuffer).wf(),
        divisible(inputs@) ==> forall|i: int|
            0 <= i < fragments_of(transformed_all(inputs@)).len() && old(framebuffer)@.in_bounds(
                fragments_of(transformed_all(inputs@))[i].position.x as int,
                fragments_of(transformed_all(inputs@))[i].position.y as int,
            ) ==> call_requires(
                sampler,
                (&#[trigger] fragments_of(transformed_all(inputs@))[i],),
            ),
    ensures
        final(framebuffer).wf(),
        !divisible(inputs@) ==> r == Err::<(), TransformError>(TransformError::ZeroW)
            && final(framebuffer)@ == old(framebuffer)@,
        divisible(inputs@) ==> r is Ok && exists|samples: Seq<Samples>|
            {
                &&& sampled_by(
                    sampler,
                    old(framebuffer)@,
                    fragments_of(transformed_all(inputs@)),
                    samples,
                )
                &&& final(framebuffer)@ == shaded(
                    old(framebuffer)@,
                    fragments_of(transformed_all(inputs@)),
                    samples,
                    ShaderKind::spec_from_tag(shader_type@),
                    fragments_of(transformed_all(inputs@)).len(),
                )
            },
{
    match transform_vertices(inputs) {
        Ok(vertices) => {
            render(framebuffer, sampler, vertices.as_slice(), shader_type);
            Ok(())
        },
        Err(error) => Err(error),
    }
}

} // verus!

//! Triangle rasterization: which pixels a triangle covers, and what each
//! covered pixel carries.

use crate::fixed::{floor_div, SUBPIXEL};
use crate::fragment::Fragment;
use crate::vertex::{Vec2, Vec3, Vertex};
use vstd::arithmetic::div_mod::{lemma_div_is_ordered, lemma_div_multiples_vanish};
use vstd::prelude::*;

verus! {

/// The edge function: twice the signed area of the triangle `a`, `b`, `p`.
/// On a screen whose `y` grows downward it is positive where `p` lies to the
/// right of the walk from `a` to `b`.
pub open spec fn edge(ax: int, ay: int, bx: int, by: int, px: int, py: int) -> int {
    (bx - ax) * (py - ay) - (by - ay) * (px - ax)
}

/// The centre of pixel `p` along one axis, in 256ths of a pixel.
pub open spec fn center(p: int) -> int {
    p * SUBPIXEL + SUBPIXEL / 2
}

/// Twice the signed area of the triangle on the screen. Zero means that the
/// three vertices lie on one line.
pub open spec fn signed_area(v1: Vertex, v2: Vertex, v3: Vertex) -> int {
    edge(
        v1.transformed_position.x as int,
        v1.transformed_position.y as int,
        v2.transformed_position.x as int,
        v2.transformed_position.y as int,
        v3.transformed_position.x as int,
        v3.transformed_position.y as int,
    )
}

/// Whether an edge with direction `(dx, dy)`, walked with the inside on its
/// right, is a top edge or a left edge. Pixel centres that lie exactly on an
/// edge belong to the triangle only on such edges, so that of two triangles
/// that share an edge exactly one takes them.
pub open spec fn owns_edge(dx: int, dy: int) -> bool {
    dy < 0 || (dy == 0 && dx > 0)
}

/// Whether a sample with edge value `w` is on the inner side of an edge with
/// direction `(dx, dy)`.
pub open spec fn edge_covers(w: int, dx: int, dy: int) -> bool {
    w > 0 || (w == 0 && owns_edge(dx, dy))
}

/// The weights of the three vertices at the centre of pixel `(px, py)`, for
/// a triangle of positive signed area. Each is an edge function of the
/// opposite edge; divided by the signed area they are the barycentric
/// coordinates of the sample.
pub open spec fn weights_oriented(a: Vertex, b: Vertex, c: Vertex, px: int, py: int) -> (
    int,
    int,
    int,
) {
    let ax = a.transformed_position.x as int;
    let ay = a.transformed_position.y as int;
    let bx = b.transformed_position.x as int;
    let by = b.transformed_position.y as int;
    let cx = c.transformed_position.x as int;
    let cy = c.transformed_position.y as int;
    let x = center(px);
    let y = center(py);
    (edge(bx, by, cx, cy, x, y), edge(cx, cy, ax, ay, x, y), edge(ax, ay, bx, by, x, y))
}

/// Whether a triangle of positive signed area covers pixel `(px, py)`.
pub open spec fn covers_oriented(a: Vertex, b: Vertex, c: Vertex, px: int, py: int) -> bool {
    let ax = a.transformed_position.x as int;
    let ay = a.transformed_position.y as int;
    let bx = b.transformed_position.x as int;
    let by = b.transformed_position.y as int;
    let cx = c.transformed_position.x as int;
    let cy = c.transformed_position.y as int;
    let w = weights_oriented(a, b, c, px, py);
    &&& edge_covers(w.0, cx - bx, cy - by)
    &&& edge_covers(w.1, ax - cx, ay - cy)
    &&& edge_covers(w.2, bx - ax, by - ay)
}

/// The weights of `v1`, `v2` and `v3` at the centre of pixel `(px, py)`.
/// For a triangle of negative signed area the signs are turned, so that the
/// weights of a covered pixel are never negative.
pub open spec fn weights(v1: Vertex, v2: Vertex, v3: Vertex, px: int, py: int) -> (int, int, int) {
    if signed_area(v1, v2, v3) >= 0 {
        weights_oriented(v1, v2, v3, px, py)
    } else {
        let w = weights_oriented(v1, v3, v2, px, py);
        (w.0, w.2, w.1)
    }
}

/// What the weights of a pixel add up to: the absolute value of the signed
/// area.
pub open spec fn total_weight(v1: Vertex, v2: Vertex, v3: Vertex) -> int {
    if signed_area(v1, v2, v3) >= 0 {
        signed_area(v1, v2, v3)
    } else {
        -signed_area(v1, v2, v3)
    }
}

/// Whether `w` are barycentric coordinates with denominator `total`: each
/// weight lies between nothing and the whole, and together they make up the
/// whole.
pub open spec fn barycentric(w: (int, int, int), total: int) -> bool {
    &&& total > 0
    &&& 0 <= w.0 <= total
    &&& 0 <= w.1 <= total
    &&& 0 <= w.2 <= total
    &&& w.0 + w.1 + w.2 == total
}

/// Whether the triangle covers pixel `(px, py)`: the pixel's centre lies
/// inside the triangle, or on an edge that owns its boundary. A triangle
/// without area covers nothing.
pub open spec fn covers(v1: Vertex, v2: Vertex, v3: Vertex, px: int, py: int) -> bool {
    if signed_area(v1, v2, v3) > 0 {
        covers_oriented(v1, v2, v3, px, py)
    } else if signed_area(v1, v2, v3) < 0 {
        covers_oriented(v1, v3, v2, px, py)
    } else {
        false
    }
}

/// The attribute values `a`, `b` and `c` mixed by the weights `w`, rounded
/// toward minus infinity.
pub open spec fn blend(w: (int, int, int), a: int, b: int, c: int) -> int {
    (w.0 * a + w.1 * b + w.2 * c) / (w.0 + w.1 + w.2)
}

/// The least of three values.
pub open spec fn least(a: int, b: int, c: int) -> int {
    if a <= b && a <= c {
        a
    } else if b <= c {
        b
    } else {
        c
    }
}

/// The greatest of three values.
pub open spec fn greatest(a: int, b: int, c: int) -> int {
    if a >= b && a >= c {
        a
    } else if b >= c {
        b
    } else {
        c
    }
}

/// The fragment of a covered pixel: depth, light weight and object-space
/// position are each mixed from the three vertices by the pixel's weights.
/// The mix is linear on the screen, with no correction for perspective.
pub open spec fn fragment_at(v1: Vertex, v2: Vertex, v3: Vertex, px: int, py: int) -> Fragment {
    let w = weights(v1, v2, v3, px, py);
    Fragment {
        position: Vec2 { x: px as i32, y: py as i32 },
        depth: blend(
            w,
            v1.transformed_position.z as int,
            v2.transformed_position.z as int,
            v3.transformed_position.z as int,
        ) as i32,
        intensity: blend(w, v1.spec_light(), v2.spec_light(), v3.spec_light()) as i32,
        vertex_position: Vec3 {
            x: blend(w, v1.position.x as int, v2.position.x as int, v3.position.x as int) as i32,
            y: blend(w, v1.position.y as int, v2.position.y as int, v3.position.y as int) as i32,
            z: blend(w, v1.position.z as int, v2.position.z as int, v3.position.z as int) as i32,
        },
    }
}

/// Whether pixel `(ax, ay)` comes before pixel `(bx, by)` in scan order:
/// rows from the top, each row from the left.
pub open spec fn scan_before(ax: int, ay: int, bx: int, by: int) -> bool {
    ay < by || (ay == by && ax < bx)
}

/// Whether one of the fragments sits at pixel `(px, py)`.
pub open spec fn listed(fragments: Seq<Fragment>, px: int, py: int) -> bool {
    exists|i: int|
        0 <= i < fragments.len() && (#[trigger] fragments[i]).position.x == px
            && fragments[i].position.y == py
}

/// Whether the fragments come in scan order, no pixel twice.
pub open spec fn in_scan_order(fragments: Seq<Fragment>) -> bool {
    forall|i: int, j: int|
        0 <= i < j < fragments.len() ==> scan_before(
            (#[trigger] fragments[i]).position.x as int,
            fragments[i].position.y as int,
            (#[trigger] fragments[j]).position.x as int,
            fragments[j].position.y as int,
        )
}

/// Whether `fragments` is the rasterization of the triangle: every fragment
/// sits on a covered pixel and is that pixel's fragment, the fragments come
/// in scan order, and no covered pixel is left out.
pub open spec fn is_raster(fragments: Seq<Fragment>, v1: Vertex, v2: Vertex, v3: Vertex) -> bool {
    &&& forall|i: int|
        0 <= i < fragments.len() ==> {
            &&& covers(
                v1,
                v2,
                v3,
                (#[trigger] fragments[i]).position.x as int,
                fragments[i].position.y as int,
            )
            &&& fragments[i] == fragment_at(
                v1,
                v2,
                v3,
                fragments[i].position.x as int,
                fragments[i].position.y as int,
            )
        }
    &&& in_scan_order(fragments)
    &&& forall|px: int, py: int| #[trigger] covers(v1, v2, v3, px, py) ==> listed(fragments, px, py)
}

/// The rasterization of a triangle: the one list of fragments that
/// `is_raster` describes.
pub open spec fn raster(v1: Vertex, v2: Vertex, v3: Vertex) -> Seq<Fragment> {
    choose|fragments: Seq<Fragment>| is_raster(fragments, v1, v2, v3)
}

/// The fragments of the triangle between three transformed vertices: one
/// for each pixel whose centre the triangle covers, in scan order.
///
/// A pixel centre inside the triangle is covered. One exactly on an edge is
/// covered if the edge is a top or a left edge, so two triangles that share
/// an edge never both take a pixel and never both leave it. The vertices may
/// be given in either turning order. A triangle without area has no
/// fragments.
///
/// Depth, light weight and object-space position of a fragment are mixed from
/// the three vertices by the pixel's barycentric weights. The mix is linear
/// on the screen and is not corrected for perspective.
pub fn triangle(v1: &Vertex, v2: &Vertex, v3: &Vertex) -> (fragments: Vec<Fragment>)
    ensures
        is_raster(fragments@, *v1, *v2, *v3),
        fragments@ == raster(*v1, *v2, *v3),
        signed_area(*v1, *v2, *v3) == 0 ==> fragments.len() == 0,
        forall|i: int|
            0 <= i < fragments.len() ==> barycentric(
                weights(
                    *v1,
                    *v2,
                    *v3,
                    (#[trigger] fragments[i]).position.x as int,
                    fragments[i].position.y as int,
                ),
                total_weight(*v1, *v2, *v3),
            ),
{
    let fragments: Vec<Fragment> = cover(v1, v2, v3);
    proof {
        lemma_raster_is(fragments@, *v1, *v2, *v3);
        assert forall|i: int| 0 <= i < fragments.len() implies barycentric(
            weights(
                *v1,
                *v2,
                *v3,
                (#[trigger] fragments[i]).position.x as int,
                fragments[i].position.y as int,
            ),
            total_weight(*v1, *v2, *v3),
        ) by {
            lemma_weights(
                *v1,
                *v2,
                *v3,
                fragments[i].position.x as int,
                fragments[i].position.y as int,
            );
        }
    }
    fragments
}

/// The weights of a covered pixel are barycentric coordinates: none is
/// negative and together they make up the whole.
pub proof fn lemma_weights(v1: Vertex, v2: Vertex, v3: Vertex, px: int, py: int)
    requires
        covers(v1, v2, v3, px, py),
    ensures
        barycentric(weights(v1, v2, v3, px, py), total_weight(v1, v2, v3)),
{
    let ax = v1.transformed_position.x as int;
    let ay = v1.transformed_position.y as int;
    let bx = v2.transformed_position.x as int;
    let by = v2.transformed_position.y as int;
    let cx = v3.transformed_position.x as int;
    let cy = v3.transformed_position.y as int;
    lemma_edge_sum(ax, ay, bx, by, cx, cy, center(px), center(py));
    lemma_edge_sum(ax, ay, cx, cy, bx, by, center(px), center(py));
}

/// A triangle whose vertices lie on one line covers no pixel.
pub proof fn lemma_degenerate_covers_nothing(v1: Vertex, v2: Vertex, v3: Vertex, px: int, py: int)
    requires
        signed_area(v1, v2, v3) == 0,
    ensures
        !covers(v1, v2, v3, px, py),
{
}

/// What a covered pixel's fragment carries lies between the least and the
/// greatest of what the three vertices carry; the light weight in
/// particular is never negative and never more than one whole. So every
/// value fits the 32 bits of its field.
pub proof fn lemma_fragment_range(v1: Vertex, v2: Vertex, v3: Vertex, px: int, py: int)
    requires
        covers(v1, v2, v3, px, py),
    ensures
        fragment_at(v1, v2, v3, px, py).depth == blend(
            weights(v1, v2, v3, px, py),
            v1.transformed_position.z as int,
            v2.transformed_position.z as int,
            v3.transformed_position.z as int,
        ),
        least(
            v1.transformed_position.z as int,
            v2.transformed_position.z as int,
            v3.transformed_position.z as int,
        ) <= fragment_at(v1, v2, v3, px, py).depth <= greatest(
            v1.transformed_position.z as int,
            v2.transformed_position.z as int,
            v3.transformed_position.z as int,
        ),
        fragment_at(v1, v2, v3, px, py).intensity == blend(
            weights(v1, v2, v3, px, py),
            v1.spec_light(),
            v2.spec_light(),
            v3.spec_light(),
        ),
        0 <= fragment_at(v1, v2, v3, px, py).intensity <= 1000,
        fragment_at(v1, v2, v3, px, py).vertex_position.x == blend(
            weights(v1, v2, v3, px, py),
            v1.position.x as int,
            v2.position.x as int,
            v3.position.x as int,
        ),
        fragment_at(v1, v2, v3, px, py).vertex_position.y == blend(
            weights(v1, v2, v3, px, py),
            v1.position.y as int,
            v2.position.y as int,
            v3.position.y as int,
        ),
        fragment_at(v1, v2, v3, px, py).vertex_position.z == blend(
            weights(v1, v2, v3, px, py),
            v1.position.z as int,
            v2.position.z as int,
            v3.position.z as int,
        ),
        least(v1.position.x as int, v2.position.x as int, v3.position.x as int) <= fragment_at(
            v1,
            v2,
            v3,
            px,
            py,
        ).vertex_position.x <= greatest(
            v1.position.x as int,
            v2.position.x as int,
            v3.position.x as int,
        ),
        least(v1.position.y as int, v2.position.y as int, v3.position.y as int) <= fragment_at(
            v1,
            v2,
            v3,
            px,
            py,
        ).vertex_position.y <= greatest(
            v1.position.y as int,
            v2.position.y as int,
            v3.position.y as int,
        ),
        least(v1.position.z as int, v2.position.z as int, v3.position.z as int) <= fragment_at(
            v1,
            v2,
            v3,
            px,
            py,
        ).vertex_position.z <= greatest(
            v1.position.z as int,
            v2.position.z as int,
            v3.position.z as int,
        ),
{
    lemma_weights(v1, v2, v3, px, py);
    let w = weights(v1, v2, v3, px, py);
    let z1 = v1.transformed_position.z as int;
    let z2 = v2.transformed_position.z as int;
    let z3 = v3.transformed_position.z as int;
    let p1 = v1.position;
    let p2 = v2.position;
    let p3 = v3.position;
    lemma_blend_range(w, z1, z2, z3, least(z1, z2, z3), greatest(z1, z2, z3));
    lemma_blend_range(w, v1.spec_light(), v2.spec_light(), v3.spec_light(), 0, 1000);
    lemma_blend_range(
        w,
        p1.x as int,
        p2.x as int,
        p3.x as int,
        least(p1.x as int, p2.x as int, p3.x as int),
        greatest(p1.x as int, p2.x as int, p3.x as int),
    );
    lemma_blend_range(
        w,
        p1.y as int,
        p2.y as int,
        p3.y as int,
        least(p1.y as int, p2.y as int, p3.y as int),
        greatest(p1.y as int, p2.y as int, p3.y as int),
    );
    lemma_blend_range(
        w,
        p1.z as int,
        p2.z as int,
        p3.z as int,
        least(p1.z as int, p2.z as int, p3.z as int),
        greatest(p1.z as int, p2.z as int, p3.z as int),
    );
}

/// Coverage does not depend on the order in which two of the vertices are
/// given.
pub proof fn lemma_covers_either_way(v1: Vertex, v2: Vertex, v3: Vertex, px: int, py: int)
    ensures
        covers(v1, v2, v3, px, py) == covers(v1, v3, v2, px, py),
{
    let ax = v1.transformed_position.x as int;
    let ay = v1.transformed_position.y as int;
    let bx = v2.transformed_position.x as int;
    let by = v2.transformed_position.y as int;
    let cx = v3.transformed_position.x as int;
    let cy = v3.transformed_position.y as int;
    lemma_edge_sum(ax, ay, bx, by, cx, cy, center(px), center(py));
}

/// The fragment of a pixel does not depend on the order in which two of the
/// vertices are given.
pub proof fn lemma_fragment_either_way(v1: Vertex, v2: Vertex, v3: Vertex, px: int, py: int)
    requires
        signed_area(v1, v2, v3) != 0,
    ensures
        fragment_at(v1, v2, v3, px, py) == fragment_at(v1, v3, v2, px, py),
{
    let ax = v1.transformed_position.x as int;
    let ay = v1.transformed_position.y as int;
    let bx = v2.transformed_position.x as int;
    let by = v2.transformed_position.y as int;
    let cx = v3.transformed_position.x as int;
    let cy = v3.transformed_position.y as int;
    lemma_edge_sum(ax, ay, bx, by, cx, cy, center(px), center(py));
}

/// Of an edge and the same edge walked the other way, at most one owns the
/// pixel centres on it, and exactly one if the edge has a length.
pub proof fn lemma_one_owner(dx: int, dy: int)
    ensures
        !(owns_edge(dx, dy) && owns_edge(-dx, -dy)),
        dx != 0 || dy != 0 ==> owns_edge(dx, dy) || owns_edge(-dx, -dy),
{
}

/// Two triangles on either side of a common edge never both cover a pixel.
pub proof fn lemma_shared_edge_no_overlap(
    a: Vertex,
    b: Vertex,
    c: Vertex,
    d: Vertex,
    px: int,
    py: int,
)
    requires
        (signed_area(a, b, c) > 0 && signed_area(a, b, d) < 0) || (signed_area(a, b, c) < 0
            && signed_area(a, b, d) > 0),
    ensures
        !(covers(a, b, c, px, py) && covers(a, b, d, px, py)),
{
    let ax = a.transformed_position.x as int;
    let ay = a.transformed_position.y as int;
    let bx = b.transformed_position.x as int;
    let by = b.transformed_position.y as int;
    lemma_edge_reversed(ax, ay, bx, by, center(px), center(py));
    lemma_one_owner(bx - ax, by - ay);
}

/// Two triangles on either side of a common edge leave no gap along it: a
/// pixel centre on the edge, strictly between the other edges of both
/// triangles, is covered by exactly one of the two.
pub proof fn lemma_shared_edge_no_gap(
    a: Vertex,
    b: Vertex,
    c: Vertex,
    d: Vertex,
    px: int,
    py: int,
)
    requires
        (signed_area(a, b, c) > 0 && signed_area(a, b, d) < 0) || (signed_area(a, b, c) < 0
            && signed_area(a, b, d) > 0),
        weights(a, b, c, px, py).2 == 0,
        weights(a, b, c, px, py).0 > 0,
        weights(a, b, c, px, py).1 > 0,
        weights(a, b, d, px, py).0 > 0,
        weights(a, b, d, px, py).1 > 0,
    ensures
        covers(a, b, c, px, py) != covers(a, b, d, px, py),
{
    let ax = a.transformed_position.x as int;
    let ay = a.transformed_position.y as int;
    let bx = b.transformed_position.x as int;
    let by = b.transformed_position.y as int;
    lemma_edge_reversed(ax, ay, bx, by, center(px), center(py));
    lemma_one_owner(bx - ax, by - ay);
    if bx == ax && by == ay {
        assert(signed_area(a, b, c) == 0) by (nonlinear_arith)
            requires
                bx == ax,
                by == ay,
                signed_area(a, b, c) == (bx - ax) * (c.transformed_position.y - ay) - (by - ay) * (
                c.transformed_position.x - ax),
        ;
    }
}

/// A triangle has one rasterization: two lists that both are one are the
/// same list.
pub proof fn lemma_raster_unique(
    s: Seq<Fragment>,
    t: Seq<Fragment>,
    v1: Vertex,
    v2: Vertex,
    v3: Vertex,
)
    requires
        is_raster(s, v1, v2, v3),
        is_raster(t, v1, v2, v3),
    ensures
        s == t,
{
    assert forall|px: int, py: int| listed(s, px, py) == listed(t, px, py) by {
        if listed(s, px, py) {
            let i = choose|i: int|
                0 <= i < s.len() && (#[trigger] s[i]).position.x == px && s[i].position.y == py;
            assert(covers(v1, v2, v3, px, py));
        }
        if listed(t, px, py) {
            let i = choose|i: int|
                0 <= i < t.len() && (#[trigger] t[i]).position.x == px && t[i].position.y == py;
            assert(covers(v1, v2, v3, px, py));
        }
    }
    lemma_same_pixels(s, t);
    assert(s =~= t);
}

/// A list that is a rasterization of the triangle is the rasterization.
pub proof fn lemma_raster_is(s: Seq<Fragment>, v1: Vertex, v2: Vertex, v3: Vertex)
    requires
        is_raster(s, v1, v2, v3),
    ensures
        s == raster(v1, v2, v3),
        is_raster(raster(v1, v2, v3), v1, v2, v3),
{
    lemma_raster_unique(s, raster(v1, v2, v3), v1, v2, v3);
}

/// The centre of a covered pixel lies in the box that the three vertices
/// span.
pub proof fn lemma_covered_in_box(a: Vertex, b: Vertex, c: Vertex, px: int, py: int)
    requires
        signed_area(a, b, c) > 0,
        covers_oriented(a, b, c, px, py),
    ensures
        least(
            a.transformed_position.x as int,
            b.transformed_position.x as int,
            c.transformed_position.x as int,
        ) <= center(px) <= greatest(
            a.transformed_position.x as int,
            b.transformed_position.x as int,
            c.transformed_position.x as int,
        ),
        least(
            a.transformed_position.y as int,
            b.transformed_position.y as int,
            c.transformed_position.y as int,
        ) <= center(py) <= greatest(
            a.transformed_position.y as int,
            b.transformed_position.y as int,
            c.transformed_position.y as int,
        ),
{
    let ax = a.transformed_position.x as int;
    let ay = a.transformed_position.y as int;
    let bx = b.transformed_position.x as int;
    let by = b.transformed_position.y as int;
    let cx = c.transformed_position.x as int;
    let cy = c.transformed_position.y as int;
    let x = center(px);
    let y = center(py);
    let w = weights_oriented(a, b, c, px, py);
    let area = signed_area(a, b, c);
    lemma_edge_sum(ax, ay, bx, by, cx, cy, x, y);
    lemma_edge_mix(ax, ay, bx, by, cx, cy, x, y);
    lemma_blend_range(w, ax, bx, cx, least(ax, bx, cx), greatest(ax, bx, cx));
    lemma_blend_range(w, ay, by, cy, least(ay, by, cy), greatest(ay, by, cy));
    assert(area * x == x * area) by (nonlinear_arith);
    assert(area * y == y * area) by (nonlinear_arith);
    lemma_div_multiples_vanish(x, area);
    lemma_div_multiples_vanish(y, area);
}

/// A mix by weights that are not negative lies between the least and the
/// greatest of the three values.
pub proof fn lemma_blend_range(w: (int, int, int), a: int, b: int, c: int, lo: int, hi: int)
    requires
        0 <= w.0,
        0 <= w.1,
        0 <= w.2,
        0 < w.0 + w.1 + w.2,
        lo <= a <= hi,
        lo <= b <= hi,
        lo <= c <= hi,
    ensures
        lo <= blend(w, a, b, c) <= hi,
{
    let total = w.0 + w.1 + w.2;
    let n = w.0 * a + w.1 * b + w.2 * c;
    assert(w.0 * lo <= w.0 * a <= w.0 * hi) by (nonlinear_arith)
        requires
            0 <= w.0,
            lo <= a <= hi,
    ;
    assert(w.1 * lo <= w.1 * b <= w.1 * hi) by (nonlinear_arith)
        requires
            0 <= w.1,
            lo <= b <= hi,
    ;
    assert(w.2 * lo <= w.2 * c <= w.2 * hi) by (nonlinear_arith)
        requires
            0 <= w.2,
            lo <= c <= hi,
    ;
    assert(total * lo == w.0 * lo + w.1 * lo + w.2 * lo) by (nonlinear_arith)
        requires
            total == w.0 + w.1 + w.2,
    ;
    assert(total * hi == w.0 * hi + w.1 * hi + w.2 * hi) by (nonlinear_arith)
        requires
            total == w.0 + w.1 + w.2,
    ;
    lemma_div_multiples_vanish(lo, total);
    lemma_div_multiples_vanish(hi, total);
    lemma_div_is_ordered(total * lo, n, total);
    lemma_div_is_ordered(n, total * hi, total);
}

/// The three edge functions of a sample add up to the signed area, and
/// turning a triangle over turns the sign of its area.
pub proof fn lemma_edge_sum(ax: int, ay: int, bx: int, by: int, cx: int, cy: int, x: int, y: int)
    ensures
        edge(bx, by, cx, cy, x, y) + edge(cx, cy, ax, ay, x, y) + edge(ax, ay, bx, by, x, y)
            == edge(ax, ay, bx, by, cx, cy),
        edge(ax, ay, cx, cy, bx, by) == -edge(ax, ay, bx, by, cx, cy),
{
    lemma_cross_sum(bx - ax, by - ay, cx - ax, cy - ay, x - ax, y - ay);
}

/// A sample is the mix of the three corners by its edge functions.
pub proof fn lemma_edge_mix(ax: int, ay: int, bx: int, by: int, cx: int, cy: int, x: int, y: int)
    ensures
        edge(bx, by, cx, cy, x, y) * ax + edge(cx, cy, ax, ay, x, y) * bx + edge(
            ax,
            ay,
            bx,
            by,
            x,
            y,
        ) * cx == edge(ax, ay, bx, by, cx, cy) * x,
        edge(bx, by, cx, cy, x, y) * ay + edge(cx, cy, ax, ay, x, y) * by + edge(
            ax,
            ay,
            bx,
            by,
            x,
            y,
        ) * cy == edge(ax, ay, bx, by, cx, cy) * y,
{
    let e1 = edge(bx, by, cx, cy, x, y);
    let e2 = edge(cx, cy, ax, ay, x, y);
    let e3 = edge(ax, ay, bx, by, x, y);
    let area = edge(ax, ay, bx, by, cx, cy);
    lemma_edge_sum(ax, ay, bx, by, cx, cy, x, y);
    lemma_cross_mix(bx - ax, by - ay, cx - ax, cy - ay, x - ax, y - ay);
    assert(e2 * (bx - ax) + e3 * (cx - ax) == area * (x - ax));
    assert(e1 * ax + e2 * bx + e3 * cx == area * x) by (nonlinear_arith)
        requires
            e1 + e2 + e3 == area,
            e2 * (bx - ax) + e3 * (cx - ax) == area * (x - ax),
    ;
    assert(e2 * (by - ay) + e3 * (cy - ay) == area * (y - ay));
    assert(e1 * ay + e2 * by + e3 * cy == area * y) by (nonlinear_arith)
        requires
            e1 + e2 + e3 == area,
            e2 * (by - ay) + e3 * (cy - ay) == area * (y - ay),
    ;
}

/// Walking an edge the other way turns the sign of its edge function.
pub proof fn lemma_edge_reversed(ax: int, ay: int, bx: int, by: int, px: int, py: int)
    ensures
        edge(bx, by, ax, ay, px, py) == -edge(ax, ay, bx, by, px, py),
{
    lemma_edge_sum(ax, ay, bx, by, px, py, px, py);
    assert(edge(ax, ay, bx, by, px, py) == cross(bx - ax, by - ay, px - ax, py - ay));
    assert(edge(bx, by, ax, ay, px, py) == cross(ax - bx, ay - by, px - bx, py - by));
    let ux = bx - ax;
    let uy = by - ay;
    let qx = px - ax;
    let qy = py - ay;
    assert((-ux) * (qy - uy) == ux * uy - ux * qy) by (nonlinear_arith);
    assert((-uy) * (qx - ux) == uy * ux - uy * qx) by (nonlinear_arith);
    assert(ux * uy == uy * ux) by (nonlinear_arith);
}

/// The cross product of two directions on the screen.
pub open spec fn cross(ux: int, uy: int, vx: int, vy: int) -> int {
    ux * vy - uy * vx
}

proof fn lemma_cross_sum(ux: int, uy: int, vx: int, vy: int, px: int, py: int)
    ensures
        cross(vx - ux, vy - uy, px - ux, py - uy) + cross(-vx, -vy, px - vx, py - vy) + cross(
            ux,
            uy,
            px,
            py,
        ) == cross(ux, uy, vx, vy),
        cross(vx, vy, ux, uy) == -cross(ux, uy, vx, vy),
{
    assert((vx - ux) * (py - uy) == vx * py - vx * uy - ux * py + ux * uy) by (nonlinear_arith);
    assert((vy - uy) * (px - ux) == vy * px - vy * ux - uy * px + uy * ux) by (nonlinear_arith);
    assert((-vx) * (py - vy) == vx * vy - vx * py) by (nonlinear_arith);
    assert((-vy) * (px - vx) == vy * vx - vy * px) by (nonlinear_arith);
    assert(vx * vy == vy * vx) by (nonlinear_arith);
    assert(ux * uy == uy * ux) by (nonlinear_arith);
    assert(vx * uy == uy * vx) by (nonlinear_arith);
    assert(vy * ux == ux * vy) by (nonlinear_arith);
}

proof fn lemma_cross_mix(ux: int, uy: int, vx: int, vy: int, px: int, py: int)
    ensures
        cross(-vx, -vy, px - vx, py - vy) * ux + cross(ux, uy, px, py) * vx == cross(
            ux,
            uy,
            vx,
            vy,
        ) * px,
        cross(-vx, -vy, px - vx, py - vy) * uy + cross(ux, uy, px, py) * vy == cross(
            ux,
            uy,
            vx,
            vy,
        ) * py,
{
    assert((-vx) * (py - vy) == vx * vy - vx * py) by (nonlinear_arith);
    assert((-vy) * (px - vx) == vy * vx - vy * px) by (nonlinear_arith);
    assert(vx * vy == vy * vx) by (nonlinear_arith);
    let e2 = vy * px - vx * py;
    let e3 = ux * py - uy * px;
    assert(cross(-vx, -vy, px - vx, py - vy) == e2);
    assert(cross(ux, uy, px, py) == e3);
    assert(e2 * ux + e3 * vx == (ux * vy - uy * vx) * px) by (nonlinear_arith)
        requires
            e2 == vy * px - vx * py,
            e3 == ux * py - uy * px,
    ;
    assert(e2 * uy + e3 * vy == (ux * vy - uy * vx) * py) by (nonlinear_arith)
        requires
            e2 == vy * px - vx * py,
            e3 == ux * py - uy * px,
    ;
}

/// Two lists in scan order that sit on the same pixels have the same
/// length and sit on them in the same places.
proof fn lemma_same_pixels(s: Seq<Fragment>, t: Seq<Fragment>)
    requires
        in_scan_order(s),
        in_scan_order(t),
        forall|px: int, py: int| listed(s, px, py) == listed(t, px, py),
    ensures
        s.len() == t.len(),
        forall|i: int| 0 <= i < s.len() ==> (#[trigger] s[i]).position == t[i].position,
    decreases s.len(),
{
    if s.len() == 0 {
        if t.len() > 0 {
            assert(t[0].position.x == t[0].position.x);
            assert(listed(t, t[0].position.x as int, t[0].position.y as int));
            assert(listed(s, t[0].position.x as int, t[0].position.y as int));
        }
    } else {
        let a = s.last();
        assert(s[s.len() - 1] == a);
        assert(listed(s, a.position.x as int, a.position.y as int));
        assert(listed(t, a.position.x as int, a.position.y as int));
        let j = choose|j: int|
            0 <= j < t.len() && (#[trigger] t[j]).position.x == a.position.x
                && t[j].position.y == a.position.y;
        let b = t.last();
        assert(t[t.len() - 1] == b);
        assert(listed(t, b.position.x as int, b.position.y as int));
        assert(listed(s, b.position.x as int, b.position.y as int));
        let i = choose|i: int|
            0 <= i < s.len() && (#[trigger] s[i]).position.x == b.position.x
                && s[i].position.y == b.position.y;
        assert(a.position == b.position);
        let s0 = s.drop_last();
        let t0 = t.drop_last();
        assert forall|px: int, py: int| listed(s0, px, py) == listed(t0, px, py) by {
            lemma_listed_prefix(s, px, py);
            lemma_listed_prefix(t, px, py);
        }
        assert(in_scan_order(s0)) by {
            assert forall|i: int, j: int| 0 <= i < j < s0.len() implies scan_before(
                (#[trigger] s0[i]).position.x as int,
                s0[i].position.y as int,
                (#[trigger] s0[j]).position.x as int,
                s0[j].position.y as int,
            ) by {
                assert(s0[i] == s[i]);
                assert(s0[j] == s[j]);
            }
        }
        assert(in_scan_order(t0)) by {
            assert forall|i: int, j: int| 0 <= i < j < t0.len() implies scan_before(
                (#[trigger] t0[i]).position.x as int,
                t0[i].position.y as int,
                (#[trigger] t0[j]).position.x as int,
                t0[j].position.y as int,
            ) by {
                assert(t0[i] == t[i]);
                assert(t0[j] == t[j]);
            }
        }
        lemma_same_pixels(s0, t0);
        assert forall|i: int| 0 <= i < s.len() implies (#[trigger] s[i]).position
            == t[i].position by {
            if i < s.len() - 1 {
                assert(s0[i] == s[i]);
                assert(t0[i] == t[i]);
            }
        }
    }
}

/// In a list in scan order, the pixels of all but the last fragment are
/// the pixels of the list other than the last one's.
proof fn lemma_listed_prefix(s: Seq<Fragment>, px: int, py: int)
    requires
        in_scan_order(s),
        s.len() > 0,
    ensures
        listed(s.drop_last(), px, py) == (listed(s, px, py) && !(s.last().position.x == px
            && s.last().position.y == py)),
{
    let s0 = s.drop_last();
    let n = s.len() - 1;
    if listed(s0, px, py) {
        let i = choose|i: int|
            0 <= i < s0.len() && (#[trigger] s0[i]).position.x == px && s0[i].position.y == py;
        assert(s[i] == s0[i]);
        assert(s[n] == s.last());
        assert(scan_before(
            s[i].position.x as int,
            s[i].position.y as int,
            s[n].position.x as int,
            s[n].position.y as int,
        ));
    }
    if listed(s, px, py) && !(s.last().position.x == px && s.last().position.y == py) {
        let i = choose|i: int|
            0 <= i < s.len() && (#[trigger] s[i]).position.x == px && s[i].position.y == py;
        assert(s0[i] == s[i]);
    }
}

proof fn lemma_listed_push(fragments: Seq<Fragment>, f: Fragment, px: int, py: int)
    ensures
        listed(fragments, px, py) ==> listed(fragments.push(f), px, py),
        f.position.x == px && f.position.y == py ==> listed(fragments.push(f), px, py),
{
    let longer = fragments.push(f);
    if listed(fragments, px, py) {
        let i = choose|i: int|
            0 <= i < fragments.len() && (#[trigger] fragments[i]).position.x == px
                && fragments[i].position.y == py;
        assert(longer[i] == fragments[i]);
    }
    if f.position.x == px && f.position.y == py {
        assert(longer[fragments.len() as int] == f);
    }
}

fn cover(v1: &Vertex, v2: &Vertex, v3: &Vertex) -> (fragments: Vec<Fragment>)
    ensures
        is_raster(fragments@, *v1, *v2, *v3),
        signed_area(*v1, *v2, *v3) == 0 ==> fragments.len() == 0,
{
    let area: i128 = edge_value(
        v1.transformed_position.x as i64,
        v1.transformed_position.y as i64,
        v2.transformed_position.x as i64,
        v2.transformed_position.y as i64,
        v3.transformed_position.x as i64,
        v3.transformed_position.y as i64,
    );
    if area > 0 {
        fill(v1, v2, v3)
    } else if area < 0 {
        proof {
            lemma_edge_sum(
                v1.transformed_position.x as int,
                v1.transformed_position.y as int,
                v2.transformed_position.x as int,
                v2.transformed_position.y as int,
                v3.transformed_position.x as int,
                v3.transformed_position.y as int,
                0,
                0,
            );
        }
        let fragments: Vec<Fragment> = fill(v1, v3, v2);
        proof {
            assert forall|i: int| 0 <= i < fragments.len() implies (#[trigger] fragments[i])
                == fragment_at(
                *v1,
                *v2,
                *v3,
                fragments[i].position.x as int,
                fragments[i].position.y as int,
            ) by {
                lemma_fragment_either_way(
                    *v1,
                    *v2,
                    *v3,
                    fragments[i].position.x as int,
                    fragments[i].position.y as int,
                );
            }
        }
        fragments
    } else {
        Vec::new()
    }
}

/// The pixels of a triangle of positive signed area, in scan order.
fn fill(a: &Vertex, b: &Vertex, c: &Vertex) -> (fragments: Vec<Fragment>)
    requires
        signed_area(*a, *b, *c) > 0,
    ensures
        forall|i: int|
            0 <= i < fragments.len() ==> {
                &&& covers_oriented(
                    *a,
                    *b,
                    *c,
                    (#[trigger] fragments[i]).position.x as int,
                    fragments[i].position.y as int,
                )
                &&& fragments[i] == fragment_at(
                    *a,
                    *b,
                    *c,
                    fragments[i].position.x as int,
                    fragments[i].position.y as int,
                )
            },
        forall|i: int, j: int|
            0 <= i < j < fragments.len() ==> scan_before(
                (#[trigger] fragments[i]).position.x as int,
                fragments[i].position.y as int,
                (#[trigger] fragments[j]).position.x as int,
                fragments[j].position.y as int,
            ),
        forall|px: int, py: int| #[trigger]
            covers_oriented(*a, *b, *c, px, py) ==> listed(fragments@, px, py),
{
    let x_min: i32 = least_of(
        a.transformed_position.x,
        b.transformed_position.x,
        c.transformed_position.x,
    );
    let x_max: i32 = greatest_of(
        a.transformed_position.x,
        b.transformed_position.x,
        c.transformed_position.x,
    );
    let y_min: i32 = least_of(
        a.transformed_position.y,
        b.transformed_position.y,
        c.transformed_position.y,
    );
    let y_max: i32 = greatest_of(
        a.transformed_position.y,
        b.transformed_position.y,
        c.transformed_position.y,
    );
    let x_lo: i32 = (floor_div(x_min as i128, 256) - 1) as i32;
    let x_hi: i32 = floor_div(x_max as i128, 256) as i32;
    let y_lo: i32 = (floor_div(y_min as i128, 256) - 1) as i32;
    let y_hi: i32 = floor_div(y_max as i128, 256) as i32;
    let mut fragments: Vec<Fragment> = Vec::new();
    let mut y: i32 = y_lo;
    while y <= y_hi
        invariant
            signed_area(*a, *b, *c) > 0,
            -0x80_0001 <= x_lo <= x_hi + 1 <= 0x80_0001,
            -0x80_0001 <= y_lo <= y <= y_hi + 1 <= 0x80_0001,
            forall|i: int|
                0 <= i < fragments.len() ==> {
                    &&& covers_oriented(
                        *a,
                        *b,
                        *c,
                        (#[trigger] fragments[i]).position.x as int,
                        fragments[i].position.y as int,
                    )
                    &&& fragments[i] == fragment_at(
                        *a,
                        *b,
                        *c,
                        fragments[i].position.x as int,
                        fragments[i].position.y as int,
                    )
                    &&& fragments[i].position.y < y
                },
            forall|i: int, j: int|
                0 <= i < j < fragments.len() ==> scan_before(
                    (#[trigger] fragments[i]).position.x as int,
                    fragments[i].position.y as int,
                    (#[trigger] fragments[j]).position.x as int,
                    fragments[j].position.y as int,
                ),
            forall|px: int, py: int| #[trigger]
                covers_oriented(*a, *b, *c, px, py) && x_lo <= px <= x_hi && y_lo <= py < y
                    ==> listed(fragments@, px, py),
        decreases y_hi - y + 1,
    {
        let mut x: i32 = x_lo;
        while x <= x_hi
            invariant
                signed_area(*a, *b, *c) > 0,
                -0x80_0001 <= x_lo <= x <= x_hi + 1 <= 0x80_0001,
                -0x80_0001 <= y_lo <= y <= y_hi <= 0x80_0000,
                forall|i: int|
                    0 <= i < fragments.len() ==> {
                        &&& covers_oriented(
                            *a,
                            *b,
                            *c,
                            (#[trigger] fragments[i]).position.x as int,
                            fragments[i].position.y as int,
                        )
                        &&& fragments[i] == fragment_at(
                            *a,
                            *b,
                            *c,
                            fragments[i].position.x as int,
                            fragments[i].position.y as int,
                        )
                        &&& scan_before(
                            fragments[i].position.x as int,
                            fragments[i].position.y as int,
                            x as int,
                            y as int,
                        )
                    },
                forall|i: int, j: int|
                    0 <= i < j < fragments.len() ==> scan_before(
                        (#[trigger] fragments[i]).position.x as int,
                        fragments[i].position.y as int,
                        (#[trigger] fragments[j]).position.x as int,
                        fragments[j].position.y as int,
                    ),
                forall|px: int, py: int| #[trigger]
                    covers_oriented(*a, *b, *c, px, py) && x_lo <= px <= x_hi && y_lo <= py
                        && scan_before(px, py, x as int, y as int) ==> listed(fragments@, px, py),
            decreases x_hi - x + 1,
        {
            let ghost before = fragments@;
            match sample(a, b, c, x, y) {
                Some(f) => {
                    fragments.push(f);
                    proof {
                        assert forall|px: int, py: int| #[trigger]
                            covers_oriented(*a, *b, *c, px, py) && x_lo <= px <= x_hi && y_lo <= py
                                && scan_before(px, py, x + 1, y as int) implies listed(
                            fragments@,
                            px,
                            py,
                        ) by {
                            lemma_listed_push(before, f, px, py);
                        }
                    }
                },
                None => {},
            }
            x += 1;
        }
        y += 1;
    }
    proof {
        assert forall|px: int, py: int| #[trigger]
            covers_oriented(*a, *b, *c, px, py) implies listed(fragments@, px, py) by {
            lemma_covered_in_box(*a, *b, *c, px, py);
        }
    }
    fragments
}

/// The fragment of pixel `(px, py)` if the triangle covers it.
fn sample(a: &Vertex, b: &Vertex, c: &Vertex, px: i32, py: i32) -> (r: Option<Fragment>)
    requires
        signed_area(*a, *b, *c) > 0,
        -0x80_0001 <= px <= 0x80_0000,
        -0x80_0001 <= py <= 0x80_0000,
    ensures
        r == (if covers_oriented(*a, *b, *c, px as int, py as int) {
            Some(fragment_at(*a, *b, *c, px as int, py as int))
        } else {
            None
        }),
{
    let ax: i64 = a.transformed_position.x as i64;
    let ay: i64 = a.transformed_position.y as i64;
    let bx: i64 = b.transformed_position.x as i64;
    let by: i64 = b.transformed_position.y as i64;
    let cx: i64 = c.transformed_position.x as i64;
    let cy: i64 = c.transformed_position.y as i64;
    let x: i64 = pixel_center(px);
    let y: i64 = pixel_center(py);
    let w0: i128 = edge_value(bx, by, cx, cy, x, y);
    let w1: i128 = edge_value(cx, cy, ax, ay, x, y);
    let w2: i128 = edge_value(ax, ay, bx, by, x, y);
    let inside: bool = (w0 > 0 || (w0 == 0 && owns(cx - bx, cy - by))) && (w1 > 0 || (w1 == 0
        && owns(ax - cx, ay - cy))) && (w2 > 0 || (w2 == 0 && owns(bx - ax, by - ay)));
    if inside {
        proof {
            lemma_edge_sum(
                ax as int,
                ay as int,
                bx as int,
                by as int,
                cx as int,
                cy as int,
                x as int,
                y as int,
            );
        }
        Some(
            Fragment {
                position: Vec2 { x: px, y: py },
                depth: mix(
                    w0,
                    w1,
                    w2,
                    a.transformed_position.z,
                    b.transformed_position.z,
                    c.transformed_position.z,
                ),
                intensity: mix(w0, w1, w2, a.light(), b.light(), c.light()),
                vertex_position: Vec3 {
                    x: mix(w0, w1, w2, a.position.x, b.position.x, c.position.x),
                    y: mix(w0, w1, w2, a.position.y, b.position.y, c.position.y),
                    z: mix(w0, w1, w2, a.position.z, b.position.z, c.position.z),
                },
            },
        )
    } else {
        None
    }
}

fn mix(w0: i128, w1: i128, w2: i128, a: i32, b: i32, c: i32) -> (r: i32)
    requires
        0 <= w0 <= 0x1_0000_0000_0000_0000_00,
        0 <= w1 <= 0x1_0000_0000_0000_0000_00,
        0 <= w2 <= 0x1_0000_0000_0000_0000_00,
        0 < w0 + w1 + w2,
    ensures
        r == blend((w0 as int, w1 as int, w2 as int), a as int, b as int, c as int),
{
    proof {
        lemma_blend_range(
            (w0 as int, w1 as int, w2 as int),
            a as int,
            b as int,
            c as int,
            -0x8000_0000,
            0x7fff_ffff,
        );
    }
    assert(-0x1_0000_0000_0000_0000_0000_0000_00 <= w0 * a <= 0x1_0000_0000_0000_0000_0000_0000_00)
        by (nonlinear_arith)
        requires
            0 <= w0 <= 0x1_0000_0000_0000_0000_00,
            -0x8000_0000 <= a <= 0x7fff_ffff,
    ;
    assert(-0x1_0000_0000_0000_0000_0000_0000_00 <= w1 * b <= 0x1_0000_0000_0000_0000_0000_0000_00)
        by (nonlinear_arith)
        requires
            0 <= w1 <= 0x1_0000_0000_0000_0000_00,
            -0x8000_0000 <= b <= 0x7fff_ffff,
    ;
    assert(-0x1_0000_0000_0000_0000_0000_0000_00 <= w2 * c <= 0x1_0000_0000_0000_0000_0000_0000_00)
        by (nonlinear_arith)
        requires
            0 <= w2 <= 0x1_0000_0000_0000_0000_00,
            -0x8000_0000 <= c <= 0x7fff_ffff,
    ;
    let sum: i128 = w0 * (a as i128) + w1 * (b as i128) + w2 * (c as i128);
    floor_div(sum, w0 + w1 + w2) as i32
}

fn edge_value(ax: i64, ay: i64, bx: i64, by: i64, px: i64, py: i64) -> (e: i128)
    requires
        -0x1_0000_0000 <= ax <= 0x1_0000_0000,
        -0x1_0000_0000 <= ay <= 0x1_0000_0000,
        -0x1_0000_0000 <= bx <= 0x1_0000_0000,
        -0x1_0000_0000 <= by <= 0x1_0000_0000,
        -0x1_0000_0000 <= px <= 0x1_0000_0000,
        -0x1_0000_0000 <= py <= 0x1_0000_0000,
    ensures
        e == edge(ax as int, ay as int, bx as int, by as int, px as int, py as int),
        -0x1_0000_0000_0000_0000_00 <= e <= 0x1_0000_0000_0000_0000_00,
{
    let ux: i128 = bx as i128 - ax as i128;
    let uy: i128 = by as i128 - ay as i128;
    let vx: i128 = px as i128 - ax as i128;
    let vy: i128 = py as i128 - ay as i128;
    assert(-0x4_0000_0000_0000_0000 <= ux * vy <= 0x4_0000_0000_0000_0000) by (nonlinear_arith)
        requires
            -0x2_0000_0000 <= ux <= 0x2_0000_0000,
            -0x2_0000_0000 <= vy <= 0x2_0000_0000,
    ;
    assert(-0x4_0000_0000_0000_0000 <= uy * vx <= 0x4_0000_0000_0000_0000) by (nonlinear_arith)
        requires
            -0x2_0000_0000 <= uy <= 0x2_0000_0000,
            -0x2_0000_0000 <= vx <= 0x2_0000_0000,
    ;
    ux * vy - uy * vx
}

fn pixel_center(p: i32) -> (v: i64)
    ensures
        v == center(p as int),
{
    (p as i64) * 256 + 128
}

fn owns(dx: i64, dy: i64) -> (r: bool)
    ensures
        r == owns_edge(dx as int, dy as int),
{
    dy < 0 || (dy == 0 && dx > 0)
}

fn least_of(a: i32, b: i32, c: i32) -> (m: i32)
    ensures
        m == least(a as int, b as int, c as int),
{
    if a <= b && a <= c {
        a
    } else if b <= c {
        b
    } else {
        c
    }
}

fn greatest_of(a: i32, b: i32, c: i32) -> (m: i32)
    ensures
        m == greatest(a as int, b as int, c as int),
{
    if a >= b && a >= c {
        a
    } else if b >= c {
        b
    } else {
        c
    }
}

} // verus!

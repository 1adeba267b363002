//! The regions of the integer plane that the rasteriser paints: triangles,
//! given by barycentric weights, and line segments.

use vstd::prelude::*;
use crate::arith::{floor_div, lemma_floor_div, lemma_floor_div_bounds};

verus! {

/// A pixel coordinate as a point of the integer plane.
pub open spec fn pt(p: (i32, i32)) -> (int, int) {
    (p.0 as int, p.1 as int)
}

/// Twice the signed area of the triangle `a`, `b`, `p`: the cross product of
/// `b - a` and `p - a`. It is zero exactly when the three points lie on one
/// line.
pub open spec fn edge(a: (int, int), b: (int, int), p: (int, int)) -> int {
    (b.0 - a.0) * (p.1 - a.1) - (b.1 - a.1) * (p.0 - a.0)
}

/// Whether `p` lies in the closed triangle `a`, `b`, `c`.
///
/// With `d = edge(a, b, c)`, the barycentric weights of `p` are
/// `edge(b, c, p) / d`, `edge(c, a, p) / d` and `edge(a, b, p) / d`; they sum
/// to one. The point is covered when `d` is not zero and no weight is
/// negative. A triangle of zero area covers nothing.
pub open spec fn covers(a: (int, int), b: (int, int), c: (int, int), p: (int, int)) -> bool {
    let d = edge(a, b, c);
    let wa = edge(b, c, p);
    let wb = edge(c, a, p);
    let wc = edge(a, b, p);
    ||| d > 0 && wa >= 0 && wb >= 0 && wc >= 0
    ||| d < 0 && wa <= 0 && wb <= 0 && wc <= 0
}

/// The smallest of three integers.
pub open spec fn min3(a: int, b: int, c: int) -> int {
    if a <= b && a <= c {
        a
    } else if b <= c {
        b
    } else {
        c
    }
}

/// The largest of three integers.
pub open spec fn max3(a: int, b: int, c: int) -> int {
    if a >= b && a >= c {
        a
    } else if b >= c {
        b
    } else {
        c
    }
}

/// The product of two differences, multiplied out.
pub proof fn lemma_mul_differences(a: int, b: int, c: int, d: int)
    by (nonlinear_arith)
    ensures
        (a - b) * (c - d) == a * c - a * d - b * c + b * d,
{
}

/// The edge function multiplied out into its six products.
pub proof fn lemma_edge_expanded(a: (int, int), b: (int, int), p: (int, int))
    ensures
        edge(a, b, p) == b.0 * p.1 - b.0 * a.1 - a.0 * p.1 - b.1 * p.0 + b.1 * a.0 + a.1 * p.0,
{
    lemma_mul_differences(b.0, a.0, p.1, a.1);
    lemma_mul_differences(b.1, a.1, p.0, a.0);
    assert(a.0 * a.1 == a.1 * a.0) by (nonlinear_arith);
}

/// The three weights of a point add up to the triangle's doubled area.
pub proof fn lemma_weights_sum(a: (int, int), b: (int, int), c: (int, int), p: (int, int))
    ensures
        edge(b, c, p) + edge(c, a, p) + edge(a, b, p) == edge(a, b, c),
{
    lemma_edge_expanded(b, c, p);
    lemma_edge_expanded(c, a, p);
    lemma_edge_expanded(a, b, p);
    lemma_edge_expanded(a, b, c);
    assert(c.0 * b.1 == b.1 * c.0 && c.1 * b.0 == b.0 * c.1 && a.0 * c.1 == c.1 * a.0 && a.1
        * c.0 == c.0 * a.1 && b.0 * a.1 == a.1 * b.0 && b.1 * a.0 == a.0 * b.1
        && c.0 * p.1 == p.1 * c.0 && c.1 * p.0 == p.0 * c.1 && b.0 * p.1 == p.1 * b.0
        && b.1 * p.0 == p.0 * b.1 && a.0 * p.1 == p.1 * a.0 && a.1 * p.0 == p.0 * a.1)
        by (nonlinear_arith);
}

/// Swapping the first two arguments of the edge function changes its sign.
pub proof fn lemma_edge_swapped(a: (int, int), b: (int, int), p: (int, int))
    ensures
        edge(b, a, p) == -edge(a, b, p),
{
    lemma_edge_expanded(a, b, p);
    lemma_edge_expanded(b, a, p);
    assert(a.0 * b.1 == b.1 * a.0 && a.1 * b.0 == b.0 * a.1) by (nonlinear_arith);
}

/// Rotating the three arguments of the edge function keeps its value.
pub proof fn lemma_edge_rotated(a: (int, int), b: (int, int), p: (int, int))
    ensures
        edge(b, p, a) == edge(a, b, p),
{
    lemma_edge_expanded(a, b, p);
    lemma_edge_expanded(b, p, a);
    assert(p.0 * a.1 == a.1 * p.0 && p.0 * b.1 == b.1 * p.0 && b.0 * a.1 == a.1 * b.0 && p.1
        * a.0 == a.0 * p.1 && p.1 * b.0 == b.0 * p.1 && b.1 * a.0 == a.0 * b.1)
        by (nonlinear_arith);
}

/// For vectors `u`, `v`, `q`: `(u x v) q == (q x v) u + (u x q) v`, in one
/// coordinate.
proof fn lemma_cross_resolution(ux: int, uy: int, vx: int, vy: int, qx: int, qy: int)
    ensures
        (ux * vy - uy * vx) * qx == (qx * vy - qy * vx) * ux + (ux * qy - uy * qx) * vx,
        (ux * vy - uy * vx) * qy == (qx * vy - qy * vx) * uy + (ux * qy - uy * qx) * vy,
{
    assert((ux * vy - uy * vx) * qx == (ux * vy) * qx - (uy * vx) * qx) by (nonlinear_arith);
    assert((qx * vy - qy * vx) * ux == (qx * vy) * ux - (qy * vx) * ux) by (nonlinear_arith);
    assert((ux * qy - uy * qx) * vx == (ux * qy) * vx - (uy * qx) * vx) by (nonlinear_arith);
    assert((ux * vy) * qx == (qx * vy) * ux) by (nonlinear_arith);
    assert((uy * vx) * qx == (uy * qx) * vx) by (nonlinear_arith);
    assert((qy * vx) * ux == (ux * qy) * vx) by (nonlinear_arith);
    assert((ux * vy - uy * vx) * qy == (ux * vy) * qy - (uy * vx) * qy) by (nonlinear_arith);
    assert((qx * vy - qy * vx) * uy == (qx * vy) * uy - (qy * vx) * uy) by (nonlinear_arith);
    assert((ux * qy - uy * qx) * vy == (ux * qy) * vy - (uy * qx) * vy) by (nonlinear_arith);
    assert((ux * vy) * qy == (ux * qy) * vy) by (nonlinear_arith);
    assert((uy * vx) * qy == (qy * vx) * uy) by (nonlinear_arith);
    assert((qx * vy) * uy == (uy * qx) * vy) by (nonlinear_arith);
}

/// Measured from `a`, a point is the combination of `b - a` and `c - a` with
/// its second and third weight, scaled by the doubled area.
pub proof fn lemma_weighted_vertices(a: (int, int), b: (int, int), c: (int, int), p: (int, int))
    ensures
        edge(c, a, p) * (b.0 - a.0) + edge(a, b, p) * (c.0 - a.0) == edge(a, b, c) * (p.0 - a.0),
        edge(c, a, p) * (b.1 - a.1) + edge(a, b, p) * (c.1 - a.1) == edge(a, b, c) * (p.1 - a.1),
{
    lemma_cross_resolution(
        b.0 - a.0,
        b.1 - a.1,
        c.0 - a.0,
        c.1 - a.1,
        p.0 - a.0,
        p.1 - a.1,
    );
    lemma_edge_rotated(c, a, p);
    assert(edge(a, p, c) == (p.0 - a.0) * (c.1 - a.1) - (p.1 - a.1) * (c.0 - a.0));
}

/// A combination of three values with weights of one sign lies between the
/// least and the greatest of them.
proof fn lemma_combination_bounds(wa: int, wb: int, wc: int, va: int, vb: int, vc: int, v: int)
    requires
        wa >= 0,
        wb >= 0,
        wc >= 0,
        wa + wb + wc > 0,
        wa * va + wb * vb + wc * vc == (wa + wb + wc) * v,
    ensures
        min3(va, vb, vc) <= v <= max3(va, vb, vc),
{
    let lo = min3(va, vb, vc);
    let hi = max3(va, vb, vc);
    let d = wa + wb + wc;
    assert(wa * va >= wa * lo && wb * vb >= wb * lo && wc * vc >= wc * lo) by (nonlinear_arith)
        requires
            wa >= 0,
            wb >= 0,
            wc >= 0,
            lo <= va,
            lo <= vb,
            lo <= vc,
    ;
    assert(wa * va <= wa * hi && wb * vb <= wb * hi && wc * vc <= wc * hi) by (nonlinear_arith)
        requires
            wa >= 0,
            wb >= 0,
            wc >= 0,
            hi >= va,
            hi >= vb,
            hi >= vc,
    ;
    assert(d * lo == wa * lo + wb * lo + wc * lo && d * hi == wa * hi + wb * hi + wc * hi)
        by (nonlinear_arith)
        requires
            d == wa + wb + wc,
    ;
    assert(lo <= v <= hi) by (nonlinear_arith)
        requires
            d > 0,
            d * lo <= d * v <= d * hi,
    ;
}

/// A covered point lies in the bounding box of the three vertices.
pub proof fn lemma_covered_in_box(a: (int, int), b: (int, int), c: (int, int), p: (int, int))
    requires
        covers(a, b, c, p),
    ensures
        min3(a.0, b.0, c.0) <= p.0 <= max3(a.0, b.0, c.0),
        min3(a.1, b.1, c.1) <= p.1 <= max3(a.1, b.1, c.1),
{
    let d = edge(a, b, c);
    let wa = edge(b, c, p);
    let wb = edge(c, a, p);
    let wc = edge(a, b, p);
    lemma_weights_sum(a, b, c, p);
    lemma_weighted_vertices(a, b, c, p);
    if d > 0 {
        assert(wa * 0 == 0);
        lemma_combination_bounds(wa, wb, wc, 0, b.0 - a.0, c.0 - a.0, p.0 - a.0);
        lemma_combination_bounds(wa, wb, wc, 0, b.1 - a.1, c.1 - a.1, p.1 - a.1);
    } else {
        assert((-wa) * 0 == 0);
        assert((-wb) * (b.0 - a.0) + (-wc) * (c.0 - a.0) == (-d) * (p.0 - a.0) && (-wb) * (b.1
            - a.1) + (-wc) * (c.1 - a.1) == (-d) * (p.1 - a.1)) by (nonlinear_arith)
            requires
                wb * (b.0 - a.0) + wc * (c.0 - a.0) == d * (p.0 - a.0),
                wb * (b.1 - a.1) + wc * (c.1 - a.1) == d * (p.1 - a.1),
        ;
        lemma_combination_bounds(-wa, -wb, -wc, 0, b.0 - a.0, c.0 - a.0, p.0 - a.0);
        lemma_combination_bounds(-wa, -wb, -wc, 0, b.1 - a.1, c.1 - a.1, p.1 - a.1);
    }
}

/// The product of two sums, multiplied out.
pub proof fn lemma_mul_sums(a: int, b: int, c: int, d: int)
    by (nonlinear_arith)
    ensures
        (a + b) * (c + d) == a * c + a * d + b * c + b * d,
{
}

/// In a product of two products, the inner factors may change places.
pub proof fn lemma_mul_interchange(w: int, x: int, y: int, z: int)
    ensures
        (w * x) * (y * z) == (w * y) * (x * z),
{
    assert((w * x) * (y * z) == w * (x * (y * z))) by (nonlinear_arith);
    assert(x * (y * z) == y * (x * z)) by (nonlinear_arith);
    assert(w * (y * (x * z)) == (w * y) * (x * z)) by (nonlinear_arith);
}

/// The scalar product of two vectors.
pub open spec fn dot(u: (int, int), v: (int, int)) -> int {
    u.0 * v.0 + u.1 * v.1
}

/// The vector from `a` to `b`.
pub open spec fn between(a: (int, int), b: (int, int)) -> (int, int) {
    (b.0 - a.0, b.1 - a.1)
}

/// The cross product of two vectors of the plane.
pub open spec fn cross(u: (int, int), v: (int, int)) -> int {
    u.0 * v.1 - u.1 * v.0
}

/// The product of two cross products, in scalar products:
/// `(a x b)(c x d) == (a . c)(b . d) - (a . d)(b . c)`.
pub proof fn lemma_cross_times_cross(a: (int, int), b: (int, int), c: (int, int), d: (int, int))
    ensures
        cross(a, b) * cross(c, d) == dot(a, c) * dot(b, d) - dot(a, d) * dot(b, c),
{
    lemma_mul_differences(a.0 * b.1, a.1 * b.0, c.0 * d.1, c.1 * d.0);
    lemma_mul_sums(a.0 * c.0, a.1 * c.1, b.0 * d.0, b.1 * d.1);
    lemma_mul_sums(a.0 * d.0, a.1 * d.1, b.0 * c.0, b.1 * c.1);
    lemma_mul_interchange(a.0, c.0, b.0, d.0);
    lemma_mul_interchange(a.0, d.0, b.0, c.0);
    lemma_mul_interchange(a.1, c.1, b.1, d.1);
    lemma_mul_interchange(a.1, d.1, b.1, c.1);
    lemma_mul_interchange(a.0, c.0, b.1, d.1);
    lemma_mul_interchange(a.1, c.1, b.0, d.0);
    lemma_mul_interchange(a.0, d.0, b.1, c.1);
    lemma_mul_interchange(a.1, d.1, b.0, c.0);
    assert((a.0 * b.0) * (c.0 * d.0) == (a.0 * b.0) * (d.0 * c.0)) by (nonlinear_arith);
    assert((a.1 * b.1) * (c.1 * d.1) == (a.1 * b.1) * (d.1 * c.1)) by (nonlinear_arith);
    assert((a.0 * b.1) * (d.0 * c.1) == (a.0 * b.1) * (c.1 * d.0)) by (nonlinear_arith);
    assert((a.1 * b.0) * (d.1 * c.0) == (a.1 * b.0) * (c.0 * d.1)) by (nonlinear_arith);
}

/// The weights of `covers` are those of the barycentric system in scalar
/// products. With `u` from `a` to `b`, `v` from `a` to `c` and `q` from `a`
/// to `p`, that system has the denominator `(u . u)(v . v) - (u . v)^2`, the
/// weight of `b` has the numerator `(v . v)(q . u) - (u . v)(q . v)`, and the
/// weight of `c` the numerator `(u . u)(q . v) - (u . v)(q . u)`. The
/// denominator is the square of the doubled area, so it is zero exactly for
/// a triangle without area, and each numerator is the doubled area times the
/// matching edge function.
pub proof fn lemma_barycentric_system(a: (int, int), b: (int, int), c: (int, int), p: (int, int))
    ensures
        ({
            let u = between(a, b);
            let v = between(a, c);
            let q = between(a, p);
            &&& dot(u, u) * dot(v, v) - dot(u, v) * dot(u, v) == edge(a, b, c) * edge(a, b, c)
            &&& dot(v, v) * dot(q, u) - dot(u, v) * dot(q, v) == edge(a, b, c) * edge(c, a, p)
            &&& dot(u, u) * dot(q, v) - dot(u, v) * dot(q, u) == edge(a, b, c) * edge(a, b, p)
        }),
{
    let u = between(a, b);
    let v = between(a, c);
    let q = between(a, p);
    lemma_edge_rotated(c, a, p);
    assert(edge(a, b, c) == cross(u, v));
    assert(edge(a, p, c) == cross(q, v));
    assert(edge(a, b, p) == cross(u, q));
    lemma_cross_times_cross(u, v, u, v);
    lemma_cross_times_cross(u, v, q, v);
    lemma_cross_times_cross(u, v, u, q);
    assert(dot(v, u) == dot(u, v) && dot(u, q) == dot(q, u) && dot(v, q) == dot(q, v)) by {
        assert(v.0 * u.0 == u.0 * v.0 && v.1 * u.1 == u.1 * v.1 && u.0 * q.0 == q.0 * u.0 && u.1
            * q.1 == q.1 * u.1 && v.0 * q.0 == q.0 * v.0 && v.1 * q.1 == q.1 * v.1)
            by (nonlinear_arith);
    }
    assert(dot(u, q) * dot(v, v) == dot(v, v) * dot(q, u) && dot(u, v) * dot(v, q) == dot(u, v)
        * dot(q, v) && dot(u, u) * dot(v, q) == dot(u, u) * dot(q, v) && dot(u, q) * dot(v, u)
        == dot(u, v) * dot(q, u)) by (nonlinear_arith)
        requires
            dot(v, u) == dot(u, v),
            dot(u, q) == dot(q, u),
            dot(v, q) == dot(q, v),
    ;
}

/// Swapping the first two vertices of a triangle keeps what it covers.
pub proof fn lemma_covers_first_two_swapped(
    a: (int, int),
    b: (int, int),
    c: (int, int),
    p: (int, int),
)
    ensures
        covers(b, a, c, p) == covers(a, b, c, p),
{
    lemma_edge_swapped(a, b, c);
    lemma_edge_swapped(c, a, p);
    lemma_edge_swapped(b, c, p);
    lemma_edge_swapped(a, b, p);
}

/// Swapping the last two vertices of a triangle keeps what it covers.
pub proof fn lemma_covers_last_two_swapped(
    a: (int, int),
    b: (int, int),
    c: (int, int),
    p: (int, int),
)
    ensures
        covers(a, c, b, p) == covers(a, b, c, p),
{
    lemma_edge_rotated(a, c, b);
    lemma_edge_swapped(b, c, a);
    lemma_edge_rotated(a, b, c);
    lemma_edge_swapped(c, a, p);
    lemma_edge_swapped(b, c, p);
    lemma_edge_swapped(a, b, p);
}

/// The last column at or left of the point where the edge from `a` down to
/// `b` crosses row `y`. Meant for `a.1 < b.1`.
pub open spec fn crossing_floor(a: (int, int), b: (int, int), y: int) -> int {
    a.0 + ((b.0 - a.0) * (y - a.1)) / (b.1 - a.1)
}

/// The first column at or right of the point where the edge from `a` down to
/// `b` crosses row `y`. Meant for `a.1 < b.1`.
pub open spec fn crossing_ceil(a: (int, int), b: (int, int), y: int) -> int {
    a.0 - ((a.0 - b.0) * (y - a.1)) / (b.1 - a.1)
}

/// On the row `y`, the sign of the edge function of a descending edge tells
/// on which side of the crossing a column lies.
pub proof fn lemma_crossing(a: (int, int), b: (int, int), x: int, y: int)
    requires
        a.1 < b.1,
    ensures
        edge(a, b, (x, y)) >= 0 <==> x <= crossing_floor(a, b, y),
        edge(a, b, (x, y)) <= 0 <==> x >= crossing_ceil(a, b, y),
{
    let n = (b.0 - a.0) * (y - a.1);
    let n2 = (a.0 - b.0) * (y - a.1);
    let q = b.1 - a.1;
    let m = x - a.0;
    lemma_floor_div(n, q, m);
    lemma_floor_div(n2, q, -m);
    assert(n2 == -n && (-m) * q == -(m * q) && q * m == m * q) by (nonlinear_arith)
        requires
            n == (b.0 - a.0) * (y - a.1),
            n2 == (a.0 - b.0) * (y - a.1),
    ;
    assert(edge(a, b, (x, y)) == n - q * m);
}

/// Whether the three vertices are ordered by row.
pub open spec fn rows_ascend(top: (int, int), mid: (int, int), low: (int, int)) -> bool {
    top.1 <= mid.1 <= low.1
}

/// Whether row `y` belongs to the upper part of a triangle ordered by row,
/// bounded by the edge from `top` to `mid`; the other rows are bounded by the
/// edge from `mid` to `low`.
pub open spec fn in_upper_part(top: (int, int), mid: (int, int), y: int) -> bool {
    y < mid.1 || (y == mid.1 && top.1 < mid.1)
}

/// First covered column of row `y` in a triangle ordered by row.
pub open spec fn row_first(top: (int, int), mid: (int, int), low: (int, int), y: int) -> int {
    if edge(top, mid, low) > 0 {
        crossing_ceil(top, low, y)
    } else if in_upper_part(top, mid, y) {
        crossing_ceil(top, mid, y)
    } else {
        crossing_ceil(mid, low, y)
    }
}

/// Last covered column of row `y` in a triangle ordered by row.
pub open spec fn row_last(top: (int, int), mid: (int, int), low: (int, int), y: int) -> int {
    if edge(top, mid, low) < 0 {
        crossing_floor(top, low, y)
    } else if in_upper_part(top, mid, y) {
        crossing_floor(top, mid, y)
    } else {
        crossing_floor(mid, low, y)
    }
}

/// With two weights of one sign and the point no farther along a direction
/// than the nearer of their two vertices, the third weight has that sign too.
proof fn lemma_remaining_weight(d: int, wa: int, wb: int, wc: int, hb: int, hc: int, hp: int)
    requires
        d > 0,
        wb >= 0,
        wc >= 0,
        wa + wb + wc == d,
        wb * hb + wc * hc == d * hp,
        hb > 0,
        hc >= hb,
        hp <= hb,
    ensures
        wa >= 0,
{
    if wa < 0 {
        assert(wc * hc >= wc * hb) by (nonlinear_arith)
            requires
                wc >= 0,
                hc >= hb,
        ;
        assert(wb * hb + wc * hb == (wb + wc) * hb) by (nonlinear_arith);
        assert((wb + wc) * hb > d * hb) by (nonlinear_arith)
            requires
                wb + wc > d,
                hb > 0,
        ;
        assert(d * hp <= d * hb) by (nonlinear_arith)
            requires
                d > 0,
                hp <= hb,
        ;
        assert(false);
    }
}

/// The same with all signs reversed.
proof fn lemma_remaining_weight_signed(
    d: int,
    wa: int,
    wb: int,
    wc: int,
    hb: int,
    hc: int,
    hp: int,
)
    requires
        d != 0,
        d > 0 ==> wb >= 0 && wc >= 0,
        d < 0 ==> wb <= 0 && wc <= 0,
        wa + wb + wc == d,
        wb * hb + wc * hc == d * hp,
        hb > 0,
        hc >= hb,
        hp <= hb,
    ensures
        d > 0 ==> wa >= 0,
        d < 0 ==> wa <= 0,
{
    if d > 0 {
        lemma_remaining_weight(d, wa, wb, wc, hb, hc, hp);
    } else {
        assert((-wb) * hb + (-wc) * hc == (-d) * hp) by (nonlinear_arith)
            requires
                wb * hb + wc * hc == d * hp,
        ;
        lemma_remaining_weight(-d, -wa, -wb, -wc, hb, hc, hp);
    }
}

/// A triangle whose vertices share a row has no area.
pub proof fn lemma_flat_has_no_area(top: (int, int), mid: (int, int), low: (int, int))
    requires
        top.1 == mid.1,
        mid.1 == low.1,
    ensures
        edge(top, mid, low) == 0,
{
    assert((mid.0 - top.0) * 0 == 0 && 0 * (low.0 - top.0) == 0);
}

/// In a triangle ordered by row, the covered pixels of a row between the
/// first and the last vertex are those from `row_first` to `row_last`.
pub proof fn lemma_row_span(top: (int, int), mid: (int, int), low: (int, int), x: int, y: int)
    requires
        rows_ascend(top, mid, low),
        edge(top, mid, low) != 0,
        top.1 <= y <= low.1,
    ensures
        covers(top, mid, low, (x, y)) <==> row_first(top, mid, low, y) <= x <= row_last(top, mid, low, y),
{
    let p = (x, y);
    let d = edge(top, mid, low);
    let wa = edge(mid, low, p);
    let wb = edge(low, top, p);
    let wc = edge(top, mid, p);
    if top.1 == low.1 {
        lemma_flat_has_no_area(top, mid, low);
    }
    lemma_edge_swapped(top, low, p);
    lemma_crossing(top, low, x, y);
    lemma_weights_sum(top, mid, low, p);
    if in_upper_part(top, mid, y) {
        lemma_crossing(top, mid, x, y);
        lemma_weighted_vertices(top, mid, low, p);
        if (d > 0 && wb >= 0 && wc >= 0) || (d < 0 && wb <= 0 && wc <= 0) {
            lemma_remaining_weight_signed(d, wa, wb, wc, mid.1 - top.1, low.1 - top.1, y - top.1);
        }
    } else {
        lemma_crossing(mid, low, x, y);
        lemma_weighted_vertices(low, mid, top, p);
        lemma_edge_swapped(mid, low, p);
        lemma_edge_swapped(mid, low, top);
        lemma_edge_rotated(top, mid, low);
        if (d > 0 && wb >= 0 && wa >= 0) || (d < 0 && wb <= 0 && wa <= 0) {
            assert(wb * (low.1 - mid.1) + wa * (low.1 - top.1) == d * (low.1 - y)) by (nonlinear_arith)
                requires
                    (-wb) * (mid.1 - low.1) + (-wa) * (top.1 - low.1) == (-d) * (y - low.1),
            ;
            lemma_remaining_weight_signed(d, wc, wb, wa, low.1 - mid.1, low.1 - top.1, low.1 - y);
        }
    }
}

/// Distance between two coordinates.
pub open spec fn span(from: int, to: int) -> int {
    if from < to {
        to - from
    } else {
        from - to
    }
}

/// How far the coordinate `at` lies from `from` in the direction of `to`;
/// negative when it lies on the other side.
pub open spec fn steps(from: int, to: int, at: int) -> int {
    if from < to {
        at - from
    } else {
        from - at
    }
}

/// How far `p` leans off the ideal line from `a` to `b`: its progress along
/// the rows times the segment's width, less its progress along the columns
/// times the segment's height. It is zero on the line.
pub open spec fn lean(a: (int, int), b: (int, int), p: (int, int)) -> int {
    steps(a.1, b.1, p.1) * span(a.0, b.0) - steps(a.0, b.0, p.0) * span(a.1, b.1)
}

/// Whether the segment from `a` to `b` is at least as wide as it is tall.
pub open spec fn is_wide(a: (int, int), b: (int, int)) -> bool {
    span(a.0, b.0) >= span(a.1, b.1)
}

/// Progress of `p` along the longer axis of the segment from `a` to `b`.
pub open spec fn major_steps(a: (int, int), b: (int, int), p: (int, int)) -> int {
    if is_wide(a, b) {
        steps(a.0, b.0, p.0)
    } else {
        steps(a.1, b.1, p.1)
    }
}

/// Whether `p` is a pixel of the rasterised segment from `a` to `b`.
///
/// The segment has one pixel for each step along its longer axis, both ends
/// included. Its displacement along the shorter axis is the ideal
/// displacement rounded to the nearest integer, and a half is rounded away
/// from `a`: twice the lean lies in `(-w, w]` for a wide segment of width `w`
/// and in `[-h, h)` for a tall one of height `h`. These are the pixels that
/// Bresenham's error accumulator visits.
pub open spec fn on_segment(a: (int, int), b: (int, int), p: (int, int)) -> bool {
    let w = span(a.0, b.0);
    let h = span(a.1, b.1);
    &&& 0 <= steps(a.0, b.0, p.0) <= w
    &&& 0 <= steps(a.1, b.1, p.1) <= h
    &&& if is_wide(a, b) {
        w == 0 || -w < 2 * lean(a, b, p) <= w
    } else {
        -h <= 2 * lean(a, b, p) < h
    }
}

/// Both ends of a segment belong to it.
pub proof fn lemma_segment_ends(a: (int, int), b: (int, int))
    ensures
        on_segment(a, b, a),
        on_segment(a, b, b),
{
    let w = span(a.0, b.0);
    let h = span(a.1, b.1);
    assert(0 * w == 0 && 0 * h == 0);
    assert(h * w - w * h == 0) by (nonlinear_arith);
}

/// A segment has one pixel for each step along its longer axis.
pub proof fn lemma_segment_unique(a: (int, int), b: (int, int), p: (int, int), q: (int, int))
    requires
        on_segment(a, b, p),
        on_segment(a, b, q),
        major_steps(a, b, p) == major_steps(a, b, q),
    ensures
        p == q,
{
    let w = span(a.0, b.0);
    let h = span(a.1, b.1);
    let ip = steps(a.0, b.0, p.0);
    let iq = steps(a.0, b.0, q.0);
    let jp = steps(a.1, b.1, p.1);
    let jq = steps(a.1, b.1, q.1);
    if is_wide(a, b) {
        if w > 0 {
            assert(jp == jq) by (nonlinear_arith)
                requires
                    w > 0,
                    -w < 2 * (jp * w - ip * h) <= w,
                    -w < 2 * (jq * w - ip * h) <= w,
            ;
        }
    } else {
        assert(ip == iq) by (nonlinear_arith)
            requires
                h > 0,
                -h <= 2 * (jp * w - ip * h) < h,
                -h <= 2 * (jp * w - iq * h) < h,
        ;
    }
}

/// The arithmetic of one step of the error accumulator, for a pixel `i`
/// columns and `j` rows along a segment `w` wide and `h` tall.
pub proof fn lemma_lean_step(w: int, h: int, i: int, j: int)
    by (nonlinear_arith)
    requires
        0 <= i <= w,
        0 <= j <= h,
    ensures
        (j + 1) * w == j * w + w,
        (i + 1) * h == i * h + h,
        i == w && j < h ==> j * w - i * h <= -w,
        j == h && i < w ==> j * w - i * h >= h,
{
}

/// The product of two differences of pixel coordinates fits in 65 bits.
pub proof fn lemma_span_product(u: int, v: int)
    by (nonlinear_arith)
    requires
        -0x1_0000_0000 < u < 0x1_0000_0000,
        -0x1_0000_0000 < v < 0x1_0000_0000,
    ensures
        -0x1_0000_0000_0000_0000 < u * v < 0x1_0000_0000_0000_0000,
{
}

/// Computes the edge function of three pixel coordinates.
pub fn edge_value(a: (i32, i32), b: (i32, i32), p: (i32, i32)) -> (r: i128)
    ensures
        r == edge(pt(a), pt(b), pt(p)),
{
    let ux: i128 = b.0 as i128 - a.0 as i128;
    let uy: i128 = b.1 as i128 - a.1 as i128;
    let qx: i128 = p.0 as i128 - a.0 as i128;
    let qy: i128 = p.1 as i128 - a.1 as i128;
    proof {
        lemma_span_product(ux as int, qy as int);
        lemma_span_product(uy as int, qx as int);
    }
    ux * qy - uy * qx
}

/// Decides whether the triangle `a`, `b`, `c` covers the pixel `p`, given the
/// triangle's doubled area `d`.
pub fn covers_pixel(a: (i32, i32), b: (i32, i32), c: (i32, i32), d: i128, p: (i32, i32)) -> (r:
    bool)
    requires
        d == edge(pt(a), pt(b), pt(c)),
    ensures
        r == covers(pt(a), pt(b), pt(c), pt(p)),
{
    let wa: i128 = edge_value(b, c, p);
    let wb: i128 = edge_value(c, a, p);
    let wc: i128 = edge_value(a, b, p);
    (d > 0 && wa >= 0 && wb >= 0 && wc >= 0) || (d < 0 && wa <= 0 && wb <= 0 && wc <= 0)
}

/// Returns the smallest of three coordinates.
pub fn least(a: i32, b: i32, c: i32) -> (r: i32)
    ensures
        r == min3(a as int, b as int, c as int),
{
    if a <= b && a <= c {
        a
    } else if b <= c {
        b
    } else {
        c
    }
}

/// Returns the largest of three coordinates.
pub fn greatest(a: i32, b: i32, c: i32) -> (r: i32)
    ensures
        r == max3(a as int, b as int, c as int),
{
    if a >= b && a >= c {
        a
    } else if b >= c {
        b
    } else {
        c
    }
}

/// The value nearest to `v` in `0..=last`.
pub open spec fn clamped(v: int, last: int) -> int {
    if v < 0 {
        0
    } else if v > last {
        last
    } else {
        v
    }
}

/// Brings a coordinate into `0..=last`.
pub fn clamp(v: i32, last: i32) -> (r: i32)
    requires
        0 <= last,
    ensures
        r == clamped(v as int, last as int),
{
    if v < 0 {
        0
    } else if v > last {
        last
    } else {
        v
    }
}

/// Computes `crossing_floor` for an edge that descends from `a` to `b`.
pub fn crossing_floor_value(a: (i32, i32), b: (i32, i32), y: i32) -> (r: i128)
    requires
        a.1 < b.1,
    ensures
        r == crossing_floor(pt(a), pt(b), y as int),
{
    let run: i128 = b.0 as i128 - a.0 as i128;
    let fall: i128 = y as i128 - a.1 as i128;
    let q: i128 = b.1 as i128 - a.1 as i128;
    proof {
        lemma_span_product(run as int, fall as int);
        lemma_floor_div_bounds(run * fall, q as int);
    }
    a.0 as i128 + floor_div(run * fall, q)
}

/// Computes `crossing_ceil` for an edge that descends from `a` to `b`.
pub fn crossing_ceil_value(a: (i32, i32), b: (i32, i32), y: i32) -> (r: i128)
    requires
        a.1 < b.1,
    ensures
        r == crossing_ceil(pt(a), pt(b), y as int),
{
    let run: i128 = a.0 as i128 - b.0 as i128;
    let fall: i128 = y as i128 - a.1 as i128;
    let q: i128 = b.1 as i128 - a.1 as i128;
    proof {
        lemma_span_product(run as int, fall as int);
        lemma_floor_div_bounds(run * fall, q as int);
    }
    a.0 as i128 - floor_div(run * fall, q)
}

} // verus!

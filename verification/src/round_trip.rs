//! The camera transform and its inverse undo each other, up to the rounding
//! of fixed-point products.

use vstd::prelude::*;
use vstd::arithmetic::div_mod::{lemma_fundamental_div_mod, lemma_mod_bound};
use crate::camera::Camera;
use crate::math::{blended, Angle, Vec3, ONE};

verus! {

/// The fixed-point value of `u * c + v * s` before saturation.
pub open spec fn mix(u: int, c: int, v: int, s: int) -> int {
    (u * c + v * s) / (ONE as int)
}

/// The quotient by `ONE` is the floor.
proof fn lemma_quotient(t: int)
    ensures
        65536 * (t / (ONE as int)) <= t < 65536 * (t / (ONE as int)) + 65536,
{
    lemma_fundamental_div_mod(t, ONE as int);
    lemma_mod_bound(t, ONE as int);
}

/// The product of a bounded value and a sine or cosine is bounded.
proof fn lemma_scaled(u: int, c: int, m: int)
    by (nonlinear_arith)
    requires
        -m <= u <= m,
        -65536 <= c <= 65536,
    ensures
        -65536 * m <= u * c <= 65536 * m,
        (-u) * c == -(u * c),
        u * (-c) == -(u * c),
        (-u) * (-c) == u * c,
{
}

/// A mix of two values within `m` lies within `2 m`, and then `blended`
/// does not saturate.
proof fn lemma_mix(u: int, c: int, v: int, s: int, m: int)
    requires
        -m <= u <= m,
        -m <= v <= m,
        -ONE <= c <= ONE,
        -ONE <= s <= ONE,
    ensures
        -2 * m <= mix(u, c, v, s) <= 2 * m,
        2 * m <= i32::MAX ==> blended(u, c, v, s) == mix(u, c, v, s),
{
    lemma_scaled(u, c, m);
    lemma_scaled(v, s, m);
    let t = u * c + v * s;
    let w = t / (ONE as int);
    lemma_quotient(t);
    assert(-65536 * m <= u * c <= 65536 * m);
    assert(-65536 * m <= v * s <= 65536 * m);
    assert(-131072 * m <= t <= 131072 * m);
    assert(mix(u, c, v, s) == w);
}

/// A mix moves by no more than its second value does.
proof fn lemma_mix_shift(u: int, c: int, v: int, w: int, s: int, k: int)
    requires
        -k <= w - v <= k,
        -ONE <= s <= ONE,
    ensures
        -k <= mix(u, c, w, s) - mix(u, c, v, s) <= k,
{
    lemma_scaled(w - v, s, k);
    assert(w * s == v * s + (w - v) * s) by (nonlinear_arith);
    let t0 = u * c + v * s;
    let t1 = u * c + w * s;
    lemma_quotient(t0);
    lemma_quotient(t1);
    assert(-65536 * k <= t1 - t0 <= 65536 * k);
    assert(mix(u, c, v, s) == t0 / (ONE as int));
    assert(mix(u, c, w, s) == t1 / (ONE as int));
}

/// The heart of the round trip. Let `a1` and `b1` be the rounded quotients
/// of `a` and `b` by `ONE`, and `t` the rounded quotient of `a1 g + b1 h`.
/// If `a g + b h` is `x` times a number within `2 ONE` of `ONE` squared, as
/// it is when a turn is followed by the opposite turn, then `t` lies within
/// `2 |x| / ONE + 3` of `x`.
proof fn lemma_back_and_forth(
    x: int,
    a: int,
    b: int,
    a1: int,
    b1: int,
    g: int,
    h: int,
    t: int,
    norm: int,
    m: int,
)
    requires
        a1 == a / (ONE as int),
        b1 == b / (ONE as int),
        t == (a1 * g + b1 * h) / (ONE as int),
        a * g + b * h == x * norm,
        -ONE <= g <= ONE,
        -ONE <= h <= ONE,
        -2 * ONE <= norm - ONE * ONE <= 2 * ONE,
        -m <= x <= m,
    ensures
        -(2 * m + 3 * ONE) <= ONE * (t - x) <= 2 * m + 3 * ONE,
{
    let alpha = a - 65536 * a1;
    let beta = b - 65536 * b1;
    let gamma = a1 * g + b1 * h - 65536 * t;
    lemma_quotient(a);
    lemma_quotient(b);
    lemma_quotient(a1 * g + b1 * h);
    assert(0 <= alpha < 65536 && 0 <= beta < 65536 && 0 <= gamma < 65536);
    assert(65536 * (a1 * g) == a * g - alpha * g) by (nonlinear_arith)
        requires
            65536 * a1 == a - alpha,
    ;
    assert(65536 * (b1 * h) == b * h - beta * h) by (nonlinear_arith)
        requires
            65536 * b1 == b - beta,
    ;
    lemma_scaled(alpha, g, 65536);
    lemma_scaled(beta, h, 65536);
    let e = norm - 65536 * 65536;
    assert(x * norm == x * e + 4294967296 * x) by (nonlinear_arith)
        requires
            e == norm - 65536 * 65536,
    ;
    assert(-131072 * m <= x * e <= 131072 * m) by (nonlinear_arith)
        requires
            -m <= x <= m,
            -131072 <= e <= 131072,
    ;
    let d = t - x;
    assert(4294967296 * d == x * e - alpha * g - beta * h - 65536 * gamma);
    assert(-(2 * m + 3 * 65536) <= 65536 * d <= 2 * m + 3 * 65536);
}

/// Turning by an angle undoes turning by its opposite: the products that
/// the two turns about the y axis add up are the coordinate times the sum
/// of the squares.
proof fn lemma_turn_identity(x: int, z: int, c: int, s: int)
    ensures
        (x * c + z * (-s)) * c + ((-x) * (-s) + z * c) * s == x * (s * s + c * c),
        (x * c + z * (-s)) * (-s) + ((-x) * (-s) + z * c) * c == z * (s * s + c * c),
{
    assert(z * (-s) == -(z * s) && (-x) * (-s) == x * s) by (nonlinear_arith);
    assert((x * c - z * s) * c == (x * c) * c - (z * s) * c) by (nonlinear_arith);
    assert((x * s + z * c) * s == (x * s) * s + (z * c) * s) by (nonlinear_arith);
    assert((x * c - z * s) * (-s) == (z * s) * s - (x * c) * s) by (nonlinear_arith);
    assert((x * s + z * c) * c == (x * s) * c + (z * c) * c) by (nonlinear_arith);
    assert((z * s) * c == (z * c) * s) by (nonlinear_arith);
    assert((x * c) * s == (x * s) * c) by (nonlinear_arith);
    assert((x * c) * c == x * (c * c) && (x * s) * s == x * (s * s)) by (nonlinear_arith);
    assert((z * c) * c == z * (c * c) && (z * s) * s == z * (s * s)) by (nonlinear_arith);
    assert(x * (s * s + c * c) == x * (s * s) + x * (c * c)) by (nonlinear_arith);
    assert(z * (s * s + c * c) == z * (s * s) + z * (c * c)) by (nonlinear_arith);
}

/// Turning about the y axis by the opposite of a unit angle and then by the
/// angle itself brings each coordinate back to within `2 m / ONE + 3`.
proof fn lemma_turn_y_back(v: Vec3, a: Angle, m: int)
    requires
        a.is_unit(),
        0 <= m,
        4 * m <= i32::MAX,
        -m <= v.x <= m,
        -m <= v.z <= m,
    ensures
        ({
            let r = v.turned_y(a.reversed());
            let w = r.turned_y(a);
            &&& -2 * m <= r.x <= 2 * m
            &&& -2 * m <= r.z <= 2 * m
            &&& r.y == v.y
            &&& w.x == mix(r.x as int, a.cos as int, r.z as int, a.sin as int)
            &&& w.z == mix(-(r.x as int), a.sin as int, r.z as int, a.cos as int)
            &&& -(2 * m + 3 * ONE) <= ONE * (w.x - v.x) <= 2 * m + 3 * ONE
            &&& -(2 * m + 3 * ONE) <= ONE * (w.z - v.z) <= 2 * m + 3 * ONE
        }),
{
    let x = v.x as int;
    let z = v.z as int;
    let c = a.cos as int;
    let s = a.sin as int;
    let r = v.turned_y(a.reversed());
    let w = r.turned_y(a);
    assert(a.reversed().sin == -s && a.reversed().cos == c);
    lemma_mix(x, c, z, -s, m);
    lemma_mix(-x, -s, z, c, m);
    let rx = mix(x, c, z, -s);
    let rz = mix(-x, -s, z, c);
    assert(r.x == rx && r.z == rz);
    lemma_mix(rx, c, rz, s, 2 * m);
    lemma_mix(-rx, s, rz, c, 2 * m);
    assert(w.x == mix(rx, c, rz, s) && w.z == mix(-rx, s, rz, c));
    lemma_turn_identity(x, z, c, s);
    lemma_back_and_forth(
        x,
        x * c + z * (-s),
        (-x) * (-s) + z * c,
        rx,
        rz,
        c,
        s,
        w.x as int,
        s * s + c * c,
        m,
    );
    assert((-rx) * s == rx * (-s)) by (nonlinear_arith);
    lemma_back_and_forth(
        z,
        x * c + z * (-s),
        (-x) * (-s) + z * c,
        rx,
        rz,
        -s,
        c,
        w.z as int,
        s * s + c * c,
        m,
    );
}

/// The same about the x axis.
proof fn lemma_turn_x_back(v: Vec3, a: Angle, m: int)
    requires
        a.is_unit(),
        0 <= m,
        4 * m <= i32::MAX,
        -m <= v.y <= m,
        -m <= v.z <= m,
    ensures
        ({
            let r = v.turned_x(a.reversed());
            let w = r.turned_x(a);
            &&& w.x == v.x
            &&& -(2 * m + 3 * ONE) <= ONE * (w.y - v.y) <= 2 * m + 3 * ONE
            &&& -(2 * m + 3 * ONE) <= ONE * (w.z - v.z) <= 2 * m + 3 * ONE
        }),
{
    let y = v.y as int;
    let z = v.z as int;
    let c = a.cos as int;
    let s = a.sin as int;
    let r = v.turned_x(a.reversed());
    let w = r.turned_x(a);
    assert(a.reversed().sin == -s && a.reversed().cos == c);
    lemma_mix(y, c, -z, -s, m);
    lemma_mix(y, -s, z, c, m);
    let ry = mix(y, c, -z, -s);
    let rz = mix(y, -s, z, c);
    assert(r.y == ry && r.z == rz);
    lemma_mix(ry, c, -rz, s, 2 * m);
    lemma_mix(ry, s, rz, c, 2 * m);
    assert(w.y == mix(ry, c, -rz, s) && w.z == mix(ry, s, rz, c));
    // The turn about x is the turn about y with the roles of the two
    // coordinates and the sign of the sine exchanged.
    lemma_turn_identity(y, z, c, -s);
    assert((-z) * (-s) == z * (-(-s)) && y * (-s) == (-y) * (-(-s)) && (-s) * (-s) == s * s
        && (-rz) * s == rz * (-s)) by (nonlinear_arith);
    lemma_back_and_forth(
        y,
        y * c + (-z) * (-s),
        y * (-s) + z * c,
        ry,
        rz,
        c,
        -s,
        w.y as int,
        s * s + c * c,
        m,
    );
    lemma_back_and_forth(
        z,
        y * c + (-z) * (-s),
        y * (-s) + z * c,
        ry,
        rz,
        s,
        c,
        w.z as int,
        s * s + c * c,
        m,
    );
}

/// How far a point may lie from the camera, along each axis, for the round
/// trip to stay clear of saturation: 1024 units.
pub open spec fn reach() -> int {
    0x400_0000
}

/// Whether `point` lies within `m` of the camera along each axis, and both
/// lie within the range in which no sum saturates.
pub open spec fn within(cam: Camera, point: Vec3, m: int) -> bool {
    &&& 0 <= m <= reach()
    &&& -m <= point.x - cam.pos.x <= m
    &&& -m <= point.y - cam.pos.y <= m
    &&& -m <= point.z - cam.pos.z <= m
    &&& -0x4000_0000 <= point.x <= 0x4000_0000
    &&& -0x4000_0000 <= point.y <= 0x4000_0000
    &&& -0x4000_0000 <= point.z <= 0x4000_0000
}

/// Moving a world point into camera space and back gives the point again,
/// up to rounding: for a camera whose angles are unit angles and a point
/// within `m` of it, each coordinate comes back within `6 m / ONE + 6` units
/// of 1/65536.
pub proof fn lemma_round_trip(cam: Camera, point: Vec3, m: int)
    requires
        cam.yaw.is_unit(),
        cam.pitch.is_unit(),
        within(cam, point, m),
    ensures
        ({
            let back = cam.restored(cam.transformed(point));
            &&& -(6 * m + 6 * ONE) <= ONE * (back.x - point.x) <= 6 * m + 6 * ONE
            &&& -(6 * m + 6 * ONE) <= ONE * (back.y - point.y) <= 6 * m + 6 * ONE
            &&& -(6 * m + 6 * ONE) <= ONE * (back.z - point.z) <= 6 * m + 6 * ONE
        }),
{
    let q = point.minus(cam.pos);
    assert(q.x == point.x - cam.pos.x && q.y == point.y - cam.pos.y && q.z == point.z - cam.pos.z);
    let r = q.turned_y(cam.yaw.reversed());
    let t = r.turned_x(cam.pitch.reversed());
    assert(t == cam.transformed(point));
    let r2 = t.turned_x(cam.pitch);
    let q2 = r2.turned_y(cam.yaw);
    let back = q2.plus(cam.pos);
    assert(back == cam.restored(cam.transformed(point)));
    lemma_turn_y_back(q, cam.yaw, m);
    lemma_turn_x_back(r, cam.pitch, 2 * m);
    let k = (4 * m + 3 * ONE) / (ONE as int);
    assert(-k <= r2.y - r.y <= k && -k <= r2.z - r.z <= k);
    let c = cam.yaw.cos as int;
    let s = cam.yaw.sin as int;
    lemma_mix(r2.x as int, c, r2.z as int, s, 2 * m + k);
    lemma_mix(-(r2.x as int), s, r2.z as int, c, 2 * m + k);
    assert(q2.x == mix(r2.x as int, c, r2.z as int, s));
    assert(q2.z == mix(-(r2.x as int), s, r2.z as int, c));
    lemma_mix_shift(r.x as int, c, r.z as int, r2.z as int, s, k);
    lemma_mix_shift(-(r.x as int), s, r.z as int, r2.z as int, c, k);
}

/// The opposite of a unit angle is a unit angle, and its opposite is the
/// angle itself.
proof fn lemma_reversed_unit(a: Angle)
    requires
        a.is_unit(),
    ensures
        a.reversed().is_unit(),
        a.reversed().reversed() == a,
        a.reversed().sin == -a.sin,
        a.reversed().cos == a.cos,
{
    let s = a.sin as int;
    assert((-s) * (-s) == s * s) by (nonlinear_arith);
}

/// Whether the camera-space point lies within `m` of the camera along each
/// axis, and the camera within the range in which no sum saturates.
pub open spec fn within_view(cam: Camera, point: Vec3, m: int) -> bool {
    &&& 0 <= m <= reach()
    &&& -m <= point.x <= m
    &&& -m <= point.y <= m
    &&& -m <= point.z <= m
    &&& -0x4000_0000 <= cam.pos.x <= 0x4000_0000
    &&& -0x4000_0000 <= cam.pos.y <= 0x4000_0000
    &&& -0x4000_0000 <= cam.pos.z <= 0x4000_0000
}

/// Moving a camera-space point into world space and back gives the point
/// again, up to rounding: for a camera whose angles are unit angles and a
/// point within `m` of it, each coordinate comes back within
/// `6 m / ONE + 6` units of 1/65536.
pub proof fn lemma_round_trip_from_view(cam: Camera, point: Vec3, m: int)
    requires
        cam.yaw.is_unit(),
        cam.pitch.is_unit(),
        within_view(cam, point, m),
    ensures
        ({
            let back = cam.transformed(cam.restored(point));
            &&& -(6 * m + 6 * ONE) <= ONE * (back.x - point.x) <= 6 * m + 6 * ONE
            &&& -(6 * m + 6 * ONE) <= ONE * (back.y - point.y) <= 6 * m + 6 * ONE
            &&& -(6 * m + 6 * ONE) <= ONE * (back.z - point.z) <= 6 * m + 6 * ONE
        }),
{
    let sp = cam.pitch.sin as int;
    let cp = cam.pitch.cos as int;
    let sy = cam.yaw.sin as int;
    let cy = cam.yaw.cos as int;
    lemma_reversed_unit(cam.yaw);
    lemma_reversed_unit(cam.pitch);
    // Out: turn by the pitch, then by the yaw, then move by the position.
    let r = point.turned_x(cam.pitch);
    lemma_mix(point.y as int, cp, -(point.z as int), sp, m);
    lemma_mix(point.y as int, sp, point.z as int, cp, m);
    assert(r.x == point.x && -2 * m <= r.y <= 2 * m && -2 * m <= r.z <= 2 * m);
    let q = r.turned_y(cam.yaw);
    lemma_mix(r.x as int, cy, r.z as int, sy, 2 * m);
    lemma_mix(-(r.x as int), sy, r.z as int, cy, 2 * m);
    assert(q.y == r.y && -4 * m <= q.x <= 4 * m && -4 * m <= q.z <= 4 * m);
    let w = q.plus(cam.pos);
    assert(w == cam.restored(point));
    assert(w.minus(cam.pos) == q);
    // Back: the yaw is undone first, which brings `r` back within `k`.
    let r2 = q.turned_y(cam.yaw.reversed());
    let back = r2.turned_x(cam.pitch.reversed());
    assert(back == cam.transformed(cam.restored(point)));
    lemma_turn_y_back(r, cam.yaw.reversed(), 2 * m);
    let k = (4 * m + 3 * ONE) / (ONE as int);
    assert(r2.y == r.y && -k <= r2.x - r.x <= k && -k <= r2.z - r.z <= k);
    // Undoing the pitch on `r` itself brings the point back.
    lemma_turn_x_back(point, cam.pitch.reversed(), m);
    let c1 = r.turned_x(cam.pitch.reversed());
    lemma_mix(r.y as int, cp, -(r.z as int), -sp, 2 * m);
    lemma_mix(r.y as int, -sp, r.z as int, cp, 2 * m);
    assert(c1.y == mix(r.y as int, cp, -(r.z as int), -sp));
    assert(c1.z == mix(r.y as int, -sp, r.z as int, cp));
    lemma_mix(r2.y as int, cp, -(r2.z as int), -sp, 2 * m + k);
    lemma_mix(r2.y as int, -sp, r2.z as int, cp, 2 * m + k);
    assert(back.y == mix(r2.y as int, cp, -(r2.z as int), -sp));
    assert(back.z == mix(r2.y as int, -sp, r2.z as int, cp));
    lemma_mix_shift(r.y as int, cp, -(r.z as int), -(r2.z as int), -sp, k);
    lemma_mix_shift(r.y as int, -sp, r.z as int, r2.z as int, cp, k);
}

} // verus!

//! Perspective projection of camera-space points onto the viewport.

use vstd::prelude::*;
use vstd::arithmetic::div_mod::{
    lemma_div_basics, lemma_fundamental_div_mod, lemma_fundamental_div_mod_converse_div,
    lemma_mod_bound,
};
use crate::arith::{lemma_floor_div, saturate, saturated, toward_zero, trunc_div};
use crate::math::{lemma_word_product, Vec3};

verus! {

/// The near plane: a point whose depth is at most this much, a tenth of a
/// unit in 16.16 fixed point, is not drawn.
pub const NEAR: i32 = 6553;

/// The pixel column of a camera-space point in front of the near plane.
///
/// The field of view is a right angle, so a point as far to the side as it
/// is deep has the normalised coordinate one; that coordinate is scaled by
/// the aspect ratio `width / height` and by half the width. The offset
/// `x * width * width / (2 * z * height)` is rounded toward the centre column
/// `width / 2` and added to it.
pub open spec fn column_of(p: Vec3, width: int, height: int) -> int {
    saturated(width / 2 + toward_zero(p.x * width * width, 2 * p.z * height))
}

/// The pixel row of a camera-space point in front of the near plane. Rows
/// count downward while `y` points up: the offset `y * height / (2 * z)` is
/// rounded toward the centre row `height / 2` and subtracted from it.
pub open spec fn row_of(p: Vec3, height: int) -> int {
    saturated(height / 2 - toward_zero(p.y * height, 2 * p.z))
}

/// The pixel of a camera-space point, or nothing for a point at or behind
/// the near plane.
pub open spec fn projected(p: Vec3, width: int, height: int) -> Option<(i32, i32)> {
    if p.z <= NEAR {
        None
    } else {
        Some((column_of(p, width, height) as i32, row_of(p, height) as i32))
    }
}

/// The camera model that a point is projected with.
#[derive(Clone, Copy, Debug)]
pub enum Lens {
    /// A field of view of a right angle, scaled by the aspect ratio.
    RightAngle,
    /// A screen at a fixed distance from the eye, counted in pixels.
    Distance(i32),
}

/// The pixel of a camera-space point on a screen `distance` pixels from the
/// eye, or nothing for a point at or behind the near plane. The offsets
/// `distance * x / z` and `distance * y / z` are rounded toward the centre
/// pixel `(width / 2, height / 2)`; rows count downward while `y` points up.
pub open spec fn projected_at(p: Vec3, distance: int, width: int, height: int) -> Option<
    (i32, i32),
> {
    if p.z <= NEAR {
        None
    } else {
        Some(
            (
                saturated(width / 2 + toward_zero(distance * p.x, p.z as int)) as i32,
                saturated(height / 2 - toward_zero(distance * p.y, p.z as int)) as i32,
            ),
        )
    }
}

/// The pixel of a camera-space point under the given camera model.
pub open spec fn projected_through(p: Vec3, lens: Lens, width: int, height: int) -> Option<
    (i32, i32),
> {
    match lens {
        Lens::RightAngle => projected(p, width, height),
        Lens::Distance(d) => projected_at(p, d as int, width, height),
    }
}

/// Computes the quotient of `a * w * w` by `d`, rounded down, as far as it
/// matters for a pixel coordinate: a quotient of 64 bits or more is reported
/// as `None`.
fn squared_quotient(a: u128, w: u128, d: u128) -> (r: Option<u128>)
    requires
        a <= 0x8000_0000,
        w < 0x1_0000_0000_0000_0000,
        0 < d < 0x1_0000_0000_0000_0000_0000_0000,
    ensures
        match r {
            Some(q) => q == (a * w * w) / (d as int) && q < 0x1_0000_0000_0000_0000,
            None => (a * w * w) / (d as int) >= 0x1_0000_0000_0000_0000,
        },
{
    assert(0 <= w * w <= 0xffff_ffff_ffff_ffff * 0xffff_ffff_ffff_ffff) by (nonlinear_arith)
        requires
            0 <= w <= 0xffff_ffff_ffff_ffff,
    ;
    let sq: u128 = w * w;
    let q0: u128 = sq / d;
    let r0: u128 = sq % d;
    proof {
        lemma_fundamental_div_mod(sq as int, d as int);
        lemma_mod_bound(sq as int, d as int);
        assert(a * w * w == a * sq) by (nonlinear_arith)
            requires
                sq == w * w,
        ;
    }
    if a == 0 {
        proof {
            assert(a * sq == 0) by (nonlinear_arith)
                requires
                    a == 0,
            ;
            lemma_div_basics(d as int);
        }
        return Some(0);
    }
    if q0 >= 0x1_0000_0000_0000_0000 {
        proof {
            lemma_floor_div(a * sq, d as int, 0x1_0000_0000_0000_0000);
            assert(0x1_0000_0000_0000_0000 * d <= a * sq) by (nonlinear_arith)
                requires
                    a >= 1,
                    sq == d * q0 + r0,
                    r0 >= 0,
                    d > 0,
                    q0 >= 0x1_0000_0000_0000_0000,
            ;
        }
        return None;
    }
    assert(0 <= a * r0 < 0x8000_0000 * 0x1_0000_0000_0000_0000_0000_0000 && 0 <= a * q0
        < 0x8000_0000 * 0x1_0000_0000_0000_0000 + 1) by (nonlinear_arith)
        requires
            0 <= a <= 0x8000_0000,
            0 <= r0 < 0x1_0000_0000_0000_0000_0000_0000,
            0 <= q0 < 0x1_0000_0000_0000_0000,
    ;
    let t: u128 = a * r0;
    let q1: u128 = t / d;
    proof {
        lemma_fundamental_div_mod(t as int, d as int);
        lemma_mod_bound(t as int, d as int);
        crate::arith::lemma_floor_div_bounds(t as int, d as int);
    }
    let q: u128 = a * q0 + q1;
    proof {
        let r1 = (t as int) % (d as int);
        assert(a * sq == q * d + r1) by (nonlinear_arith)
            requires
                sq == d * q0 + r0,
                t == a * r0,
                t == d * q1 + r1,
                q == a * q0 + q1,
        ;
        lemma_fundamental_div_mod_converse_div(a * sq, d as int, q as int, r1);
    }
    if q >= 0x1_0000_0000_0000_0000 {
        None
    } else {
        Some(q)
    }
}

/// Projects a camera-space point onto a viewport of `width` by `height`
/// pixels. The result is `None` exactly when the point's depth is at or
/// below the near plane.
pub fn project(p: Vec3, width: usize, height: usize) -> (r: Option<(i32, i32)>)
    requires
        0 < height,
    ensures
        r == projected(p, width as int, height as int),
        r.is_none() <==> p.z <= NEAR,
{
    if p.z <= NEAR {
        return None;
    }
    let w: i128 = width as i128;
    let h: i128 = height as i128;
    let y: i128 = p.y as i128;
    let z: i128 = p.z as i128;
    let ghost n = p.x * width * width;
    let ghost dd = 2 * p.z * height;
    assert(0 < 2 * z * height < 0x1_0000_0000_0000_0000_0000_0000 && dd == (2 * z) * height
        && -0x8000_0000 * 0x1_0000_0000_0000_0000 <= y * h <= 0x8000_0000
        * 0x1_0000_0000_0000_0000) by (nonlinear_arith)
        requires
            0 < z < 0x8000_0000,
            0 < height < 0x1_0000_0000_0000_0000,
            h == height,
            -0x8000_0000 <= y <= 0x8000_0000,
            dd == 2 * z * height,
    ;
    let d: u128 = (2 * z) as u128 * (height as u128);
    let a: u128 = if p.x < 0 {
        (-(p.x as i128)) as u128
    } else {
        p.x as u128
    };
    proof {
        assert(a * width * width == if p.x < 0 {
            -n
        } else {
            n
        }) by (nonlinear_arith)
            requires
                n == p.x * width * width,
                a == if p.x < 0 {
                    -p.x
                } else {
                    p.x as int
                },
        ;
    }
    let column: i32 = match squared_quotient(a, width as u128, d) {
        Some(q) => {
            if p.x < 0 {
                saturate(w / 2 - q as i128)
            } else {
                saturate(w / 2 + q as i128)
            }
        },
        None => {
            if p.x < 0 {
                i32::MIN
            } else {
                i32::MAX
            }
        },
    };
    let down: i128 = trunc_div(y * h, 2 * z);
    proof {
        crate::arith::lemma_toward_zero_bounds(y * h, 2 * z);
    }
    Some((column, saturate(h / 2 - down)))
}

/// Projects a camera-space point onto a screen `distance` pixels from the
/// eye. The result is `None` exactly when the point's depth is at or below
/// the near plane.
pub fn project_at(p: Vec3, distance: i32, width: usize, height: usize) -> (r: Option<(i32, i32)>)
    ensures
        r == projected_at(p, distance as int, width as int, height as int),
        r.is_none() <==> p.z <= NEAR,
{
    if p.z <= NEAR {
        return None;
    }
    let d: i128 = distance as i128;
    let z: i128 = p.z as i128;
    proof {
        lemma_word_product(d as int, p.x as int);
        lemma_word_product(d as int, p.y as int);
        crate::arith::lemma_toward_zero_bounds(d * p.x, z as int);
        crate::arith::lemma_toward_zero_bounds(d * p.y, z as int);
    }
    let across: i128 = trunc_div(d * (p.x as i128), z);
    let down: i128 = trunc_div(d * (p.y as i128), z);
    Some((saturate(width as i128 / 2 + across), saturate(height as i128 / 2 - down)))
}

/// Projects a camera-space point under the given camera model.
pub fn project_through(p: Vec3, lens: Lens, width: usize, height: usize) -> (r: Option<
    (i32, i32),
>)
    requires
        lens is RightAngle ==> 0 < height,
    ensures
        r == projected_through(p, lens, width as int, height as int),
        r.is_none() <==> p.z <= NEAR,
{
    match lens {
        Lens::RightAngle => project(p, width, height),
        Lens::Distance(d) => project_at(p, d, width, height),
    }
}

/// A point on the viewing axis, in front of the near plane, is projected to
/// the centre pixel of the viewport, whatever its depth.
pub proof fn lemma_axis_projects_to_centre(depth: i32, width: int, height: int)
    requires
        depth > NEAR,
        0 <= width,
        0 < height,
    ensures
        projected(Vec3 { x: 0, y: 0, z: depth }, width, height) == Some(
            (saturated(width / 2) as i32, saturated(height / 2) as i32),
        ),
{
    let p = Vec3 { x: 0, y: 0, z: depth };
    assert(p.x * width * width == 0 && p.y * height == 0) by (nonlinear_arith)
        requires
            p.x == 0,
            p.y == 0,
    ;
    assert(2 * p.z * height != 0) by (nonlinear_arith)
        requires
            p.z > 0,
            height > 0,
    ;
    lemma_div_basics(2 * p.z * height);
    lemma_div_basics(2 * p.z);
}

} // verus!

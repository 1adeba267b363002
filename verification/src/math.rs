//! Vectors in 16.16 fixed point: translation and rotation about the axes.
//!
//! A coordinate is a signed 32-bit integer that counts units of 1/65536. Sums
//! and differences saturate; a product with a sine or cosine is rounded down
//! to the next unit and then saturates.

use vstd::prelude::*;
use crate::arith::{floor_div, saturate, saturated};

verus! {

/// The number one in 16.16 fixed point.
pub const ONE: i32 = 65536;

/// The product of two 32-bit values fits in 63 bits.
pub proof fn lemma_word_product(u: int, v: int)
    by (nonlinear_arith)
    requires
        -0x8000_0000 <= u <= 0x8000_0000,
        -0x8000_0000 <= v <= 0x8000_0000,
    ensures
        -0x4000_0000_0000_0000 <= u * v <= 0x4000_0000_0000_0000,
{
}

/// The fixed-point value of `u * c + v * s`, where `c` and `s` are in 16.16
/// fixed point: the exact sum of the two products, divided by `ONE` and
/// rounded down, then saturated.
pub open spec fn blended(u: int, c: int, v: int, s: int) -> int {
    saturated((u * c + v * s) / (ONE as int))
}

/// Computes `blended`.
pub fn blend(u: i32, c: i32, v: i32, s: i32) -> (r: i32)
    ensures
        r == blended(u as int, c as int, v as int, s as int),
{
    proof {
        lemma_word_product(u as int, c as int);
        lemma_word_product(v as int, s as int);
    }
    let total: i128 = (u as i128) * (c as i128) + (v as i128) * (s as i128);
    saturate(floor_div(total, ONE as i128))
}

/// An angle, held as its sine and cosine in 16.16 fixed point.
#[derive(Clone, Copy, Debug)]
pub struct Angle {
    pub sin: i32,
    pub cos: i32,
}

impl Angle {
    /// The angle with the given sine and cosine.
    pub fn new(sin: i32, cos: i32) -> (r: Angle)
        ensures
            r == (Angle { sin, cos }),
    {
        Angle { sin, cos }
    }

    /// The angle of no rotation.
    pub fn zero() -> (r: Angle)
        ensures
            r == (Angle { sin: 0, cos: ONE }),
    {
        Angle { sin: 0, cos: ONE }
    }

    /// Whether the sine and cosine are those of an angle, as far as 16.16
    /// fixed point can tell: neither exceeds one, and their squares add up
    /// to one within the error that rounding each to the nearest unit
    /// leaves.
    pub open spec fn is_unit(self) -> bool {
        &&& -ONE <= self.sin <= ONE
        &&& -ONE <= self.cos <= ONE
        &&& -2 * ONE <= self.sin * self.sin + self.cos * self.cos - ONE * ONE <= 2 * ONE
    }

    /// The opposite angle: the sine changes sign, the cosine stays.
    pub open spec fn reversed(self) -> Angle {
        Angle { sin: saturated(-(self.sin as int)) as i32, cos: self.cos }
    }

    /// Returns the opposite angle.
    pub fn reverse(self) -> (r: Angle)
        ensures
            r == self.reversed(),
    {
        Angle { sin: saturate(-(self.sin as i128)), cos: self.cos }
    }
}

/// A vector, or the position of a point, in three dimensions.
#[derive(Clone, Copy, Debug)]
pub struct Vec3 {
    pub x: i32,
    pub y: i32,
    pub z: i32,
}

impl Vec3 {
    /// The vector with the given coordinates.
    pub fn new(x: i32, y: i32, z: i32) -> (r: Vec3)
        ensures
            r == (Vec3 { x, y, z }),
    {
        Vec3 { x, y, z }
    }

    /// The sum of two vectors, each coordinate saturated.
    pub open spec fn plus(self, o: Vec3) -> Vec3 {
        Vec3 {
            x: saturated(self.x + o.x) as i32,
            y: saturated(self.y + o.y) as i32,
            z: saturated(self.z + o.z) as i32,
        }
    }

    /// The difference of two vectors, each coordinate saturated.
    pub open spec fn minus(self, o: Vec3) -> Vec3 {
        Vec3 {
            x: saturated(self.x - o.x) as i32,
            y: saturated(self.y - o.y) as i32,
            z: saturated(self.z - o.z) as i32,
        }
    }

    /// The vector turned about the x axis by `a`: `y` becomes
    /// `y cos - z sin` and `z` becomes `y sin + z cos`.
    pub open spec fn turned_x(self, a: Angle) -> Vec3 {
        Vec3 {
            x: self.x,
            y: blended(self.y as int, a.cos as int, -(self.z as int), a.sin as int) as i32,
            z: blended(self.y as int, a.sin as int, self.z as int, a.cos as int) as i32,
        }
    }

    /// The vector turned about the y axis by `a`: `x` becomes
    /// `x cos + z sin` and `z` becomes `z cos - x sin`.
    pub open spec fn turned_y(self, a: Angle) -> Vec3 {
        Vec3 {
            x: blended(self.x as int, a.cos as int, self.z as int, a.sin as int) as i32,
            y: self.y,
            z: blended(-(self.x as int), a.sin as int, self.z as int, a.cos as int) as i32,
        }
    }

    /// Adds `o`.
    pub fn add(self, o: Vec3) -> (r: Vec3)
        ensures
            r == self.plus(o),
    {
        Vec3 {
            x: saturate(self.x as i128 + o.x as i128),
            y: saturate(self.y as i128 + o.y as i128),
            z: saturate(self.z as i128 + o.z as i128),
        }
    }

    /// Subtracts `o`.
    pub fn sub(self, o: Vec3) -> (r: Vec3)
        ensures
            r == self.minus(o),
    {
        Vec3 {
            x: saturate(self.x as i128 - o.x as i128),
            y: saturate(self.y as i128 - o.y as i128),
            z: saturate(self.z as i128 - o.z as i128),
        }
    }

    /// Turns the vector about the x axis by `a`.
    pub fn rotate_x(self, a: Angle) -> (r: Vec3)
        ensures
            r == self.turned_x(a),
    {
        let s: i32 = a.sin;
        let c: i32 = a.cos;
        Vec3 { x: self.x, y: blend_negated(self.y, c, self.z, s), z: blend(self.y, s, self.z, c) }
    }

    /// Turns the vector about the y axis by `a`.
    pub fn rotate_y(self, a: Angle) -> (r: Vec3)
        ensures
            r == self.turned_y(a),
    {
        let s: i32 = a.sin;
        let c: i32 = a.cos;
        Vec3 { x: blend(self.x, c, self.z, s), y: self.y, z: blend_negated(self.z, c, self.x, s) }
    }
}

/// Computes the fixed-point value of `u * c - v * s`.
pub fn blend_negated(u: i32, c: i32, v: i32, s: i32) -> (r: i32)
    ensures
        r == blended(u as int, c as int, -(v as int), s as int),
        r == blended(-(v as int), s as int, u as int, c as int),
{
    proof {
        lemma_word_product(u as int, c as int);
        lemma_word_product(-(v as int), s as int);
        assert((-(v as int)) * (s as int) == -((v as int) * (s as int))) by (nonlinear_arith);
    }
    let total: i128 = (u as i128) * (c as i128) - (v as i128) * (s as i128);
    saturate(floor_div(total, ONE as i128))
}

} // verus!

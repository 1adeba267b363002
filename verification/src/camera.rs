//! The camera: a position and an orientation, and the change from world space
//! to camera space.

use vstd::prelude::*;
use crate::arith::saturate;
use crate::math::{blend, blend_negated, Angle, Vec3};

verus! {

/// A camera at `pos`, turned by `yaw` about the vertical axis and then by
/// `pitch` about its own horizontal axis. With no turn it looks along the
/// positive z axis.
#[derive(Clone, Copy, Debug)]
pub struct Camera {
    pub pos: Vec3,
    pub yaw: Angle,
    pub pitch: Angle,
}

impl Camera {
    /// The camera with the given position and orientation.
    pub fn new(pos: Vec3, yaw: Angle, pitch: Angle) -> (r: Camera)
        ensures
            r == (Camera { pos, yaw, pitch }),
    {
        Camera { pos, yaw, pitch }
    }

    /// The place of a world point in camera space: the point less the
    /// camera's position, turned back by the yaw about the y axis and then
    /// turned back by the pitch about the x axis. What lies straight ahead of
    /// the camera gets a positive depth `z`.
    pub open spec fn transformed(self, point: Vec3) -> Vec3 {
        point.minus(self.pos).turned_y(self.yaw.reversed()).turned_x(self.pitch.reversed())
    }

    /// The place in world space of a camera-space point: the point turned
    /// by the pitch about the x axis, then by the yaw about the y axis, and
    /// moved by the camera's position.
    pub open spec fn restored(self, point: Vec3) -> Vec3 {
        point.turned_x(self.pitch).turned_y(self.yaw).plus(self.pos)
    }

    /// Moves a camera-space point back into world space.
    pub fn to_world(&self, point: Vec3) -> (r: Vec3)
        ensures
            r == self.restored(point),
    {
        point.rotate_x(self.pitch).rotate_y(self.yaw).add(self.pos)
    }

    /// Moves a world point into camera space, composing the vector
    /// operations.
    pub fn transform(&self, point: Vec3) -> (r: Vec3)
        ensures
            r == self.transformed(point),
    {
        let p: Vec3 = point.sub(self.pos);
        p.rotate_y(self.yaw.reverse()).rotate_x(self.pitch.reverse())
    }

    /// Moves a world point into camera space, with the two turns written out
    /// coordinate by coordinate. The result is that of `transform`.
    pub fn world_to_camera(&self, p: Vec3) -> (r: Vec3)
        ensures
            r == self.transformed(p),
    {
        let x: i32 = saturate(p.x as i128 - self.pos.x as i128);
        let y: i32 = saturate(p.y as i128 - self.pos.y as i128);
        let z: i32 = saturate(p.z as i128 - self.pos.z as i128);
        let sy: i32 = saturate(-(self.yaw.sin as i128));
        let cy: i32 = self.yaw.cos;
        let tx: i32 = blend(x, cy, z, sy);
        let tz: i32 = blend_negated(z, cy, x, sy);
        let sp: i32 = saturate(-(self.pitch.sin as i128));
        let cp: i32 = self.pitch.cos;
        let ty: i32 = blend_negated(y, cp, tz, sp);
        let tz2: i32 = blend(y, sp, tz, cp);
        Vec3 { x: tx, y: ty, z: tz2 }
    }
}

} // verus!

//! A software renderer for indexed triangle meshes.
//!
//! World geometry is held in 16.16 fixed point. A frame is produced by moving
//! each triangle into camera space, projecting it onto the viewport, ordering
//! the projected triangles back to front and rasterising them into a
//! row-major buffer of packed 32-bit pixels.
//!
//! There are two ways through. `renderer::render` draws one mesh on a screen
//! of 640 by 480 pixels, projected at a fixed pixel distance and filled row
//! by row. `renderer::render_scene` draws a scene on a screen of 800 by 600
//! pixels, projected under a field of view of a right angle, each mesh in
//! its own style.

pub mod arith;
pub mod camera;
pub mod cube_frame;
pub mod geometry;
pub mod math;
pub mod projection;
pub mod raster;
pub mod renderer;
pub mod round_trip;
pub mod scene;
pub mod screen;
pub mod shape;

pub use geometry::{Mesh, Point3, Triangle};
pub use scene::Scene;

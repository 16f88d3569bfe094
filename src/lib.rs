//! A software 3D renderer on integers: shared meshes placed by per-instance transforms,
//! seen through a camera, clipped against the view frustum, projected, and rasterized into
//! a pixel buffer as wireframe, filled or intensity-shaded triangles.
//!
//! World coordinates are integers in a unit the caller chooses; rotation and scale factors
//! are fixed point (`geometry::FIXED_ONE` is 1). Every division rounds down.

pub mod canvas;
pub mod clipping;
pub mod color;
pub mod geometry;
pub mod model;
pub mod renderer;
pub mod scene;
pub mod transform;
pub mod viewport;

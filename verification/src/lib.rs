//! A tile-based CPU rasterizer: triangles are transformed by a vertex stage,
//! binned into a grid of screen tiles, and rasterized per tile by barycentric
//! sampling with a depth test.  All geometry and color arithmetic is done in
//! saturating fixed-point (see `fixed`), so every pipeline stage has an exact,
//! machine-checked contract.

pub mod fixed;
pub mod vector;
pub mod matrix;
pub mod framebuffer;
pub mod renderer;

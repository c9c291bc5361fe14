//! A software rasterizer over fixed-point arithmetic.
//!
//! Coordinates, matrix entries and depths are [`fixed::Fixed`] numbers, so every
//! stage of the pipeline is a function on integers. Sums, orientation tests and
//! barycentric weights are exact; products and quotients are rounded, each in
//! the way its contract states:
//!
//! - [`mvp`] builds the view, model and projection matrices;
//! - [`triangle`] holds triangles and answers the geometric queries of scan
//!   conversion: bounding box, inclusion, barycentric weights, depth;
//! - [`screen`] places pixels in the buffers and takes corners to the screen;
//! - [`line`] and [`depth`] say what drawing an outline and filling a triangle
//!   leave in the buffers;
//! - [`rasterizer`] owns the buffers and the matrices, and draws.

pub mod depth;
pub mod fixed;
pub mod linalg;
pub mod line;
pub mod mvp;
pub mod rasterizer;
pub mod screen;
pub mod triangle;

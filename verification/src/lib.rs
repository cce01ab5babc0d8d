//! A software rasterizer with a verified fixed-point core.
//!
//! The library loads a line-oriented mesh description (vertex positions,
//! texture coordinates, normals and triangular faces), projects each vertex
//! to screen space, and fills triangles with a z-buffer depth test, flat
//! Lambertian intensity and texture sampling.  All geometry is carried in
//! exact fixed-point arithmetic so that every stage of the pipeline has a
//! precise, machine-checked contract.

pub mod fixed;
pub mod buffer;
pub mod geom;
pub mod line;
pub mod model;
pub mod parse;
pub mod picture;

//! The stages that turn staged geometry into pixels.

pub mod clip;
pub mod geometry;
pub mod rasterizer;
pub mod shader;

//! The output side of the renderer.

pub mod screen;

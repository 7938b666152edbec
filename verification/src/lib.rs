//! The discrete core of a tiled software rasterizer.
//!
//! Everything in this crate works on indices, bytes and ordered depth keys:
//! textures and their catalog, the index-level staging of a draw call,
//! Sutherland-Hodgman clipping over vertex indices, tile binning, the depth
//! test and the blit of tiles into a frame. Vertex positions and all other
//! real-valued quantities belong to the caller, who classifies vertices and
//! hands the outcome to the functions here.

pub mod algorithm;
pub mod graphics;
pub mod inputs;
pub mod pipeline;
pub mod resources;
pub mod scene;

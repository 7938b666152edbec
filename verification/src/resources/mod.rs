//! Resources that live across frames: textures and meshes.

pub mod loaders;
pub mod mesh;
pub mod texture;

//! What is rendered, and from where.

pub mod camera;

[package]
name = "soft_rend"
version = "0.1.0"
edition = "2021"
publish = false

[dependencies]
glam = "*"
rayon = "1"
winit = "0.30"
pixels = "0.15"

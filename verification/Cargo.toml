[package]
name = "glyphflow"
version = "0.1.0"
edition = "2021"
publish = false

[dependencies]
rusttype = { version = "0.9", features = ["gpu_cache"] }
unicode-segmentation = "1"
bytemuck = "1"

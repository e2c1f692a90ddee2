[package]
name = "sunray"
version = "0.1.0"
edition = "2021"
publish = false

[dependencies]
rand = "*"
bytemuck = "1"
ash = "0.38"
raw-window-handle = "0.6"
gltf = { version = "1", default-features = false }

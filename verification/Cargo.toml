[package]
name = "scene_graph"
version = "0.1.0"
edition = "2021"
publish = false

[dependencies]
itertools = "0.14"
smallvec = "1"
spin = "0.10"
serde = { version = "1", features = ["derive"] }
schemars = "1"
core-foundation = "0.10"
core-video = "0.4"
io-surface = "0.16"

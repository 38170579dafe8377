[package]
name = "particle_life"
version = "0.1.0"
edition = "2021"
publish = false

[dependencies]
bevy = { version = "0.14", default-features = false }
bevy_spatial = { version = "0.9", default-features = false, features = ["kdtree"] }
rand = "0.8"

[package]
name = "gem_battle"
version = "0.1.0"
edition = "2021"
publish = false

[dependencies]
bevy = { version = "=0.8.1", default-features = false, features = ["animation", "bevy_asset", "bevy_scene", "bevy_gltf", "render", "png"] }
bevy_tweening = "0.5"
bevy_utils = "=0.8.1"
fastrand = "=1.9.0"
iyes_loopless = "0.7"
web-sys = { version = "0.3", features = ["Window"] }

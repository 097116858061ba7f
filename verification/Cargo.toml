[package]
name = "torxel"
version = "0.1.0"
edition = "2021"
publish = false

[dependencies]
smallvec = "1"
flume = "0.11"
bevy = { version = "0.15", default-features = false, features = ["bevy_render", "bevy_core_pipeline", "bevy_pbr", "bevy_asset"] }

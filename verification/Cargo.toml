[package]
name = "world_core"
version = "0.1.0"
edition = "2021"
publish = false

[dependencies]
bevy_utils = "0.13"
rand = "0.8"
serde = { version = "1", features = ["derive"] }
serde-wasm-bindgen = "0.6"
wasm-bindgen = "0.2"

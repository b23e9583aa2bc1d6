[package]
name = "webgpu"
version = "0.1.0"
edition = "2021"
publish = false

[dependencies]
anymap = "0.12"
lazy_static = "1"
serde = { version = "1", features = ["derive"] }
serde_json = "1"
winit = "0.25"

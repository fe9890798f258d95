[package]
name = "blueprints"
version = "0.1.0"
edition = "2021"
publish = false

[dependencies]
serde_json = "1"
serde = { version = "1", features = ["derive"] }
ron = "0.8"
gltf = { version = "1.4", features = ["extras"] }

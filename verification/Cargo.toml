[package]
name = "yapper"
version = "0.1.0"
edition = "2021"
publish = false

[dependencies]
anyhow = "1"
async-channel = "2"
cpal = "*"
dirs = "*"
gtk4 = { version = "*", features = ["v4_16"] }
gtk4-layer-shell = "*"
libadwaita = { version = "*", features = ["v1_6"] }
libc = "0.2"
serde = { version = "1", features = ["derive"] }
serde_json = "1"
sherpa-onnx = "*"
toml = "*"

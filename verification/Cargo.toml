[package]
name = "seishin"
version = "0.1.0"
edition = "2021"
publish = false

[dependencies]
serde = { version = "=1.0.229", features = ["derive"] }
serde_json = "=1.0.154"
toml = "=1.1.8"
tracing = "=0.1.44"
kira = { version = "=0.12.6", default-features = false }
wgpu = { version = "=30.0.1", default-features = false }
image = { version = "*", default-features = false, features = ["png"] }

[package]
name = "neosurv"
version = "0.1.0"
edition = "2021"
publish = false

[dependencies]
serde = { version = "=1.0.229", features = ["derive"] }
toml = "=1.1.8"
ron = "=0.12.3"
glam = { version = "=0.34.2", features = ["serde"] }
noise = "=0.9.0"
tracing = "=0.1.44"
tracing-subscriber = { version = "=0.3.23", features = ["env-filter"] }
anyhow = "=1.0.104"
legion = { version = "=0.4.0", default-features = false }
egui = { version = "=0.37.0", default-features = false }

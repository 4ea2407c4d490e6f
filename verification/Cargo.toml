[package]
name = "taisun"
version = "0.1.0"
edition = "2021"
publish = false

[dependencies]
pyo3 = { version = "0.19", features = ["extension-module"] }
serde = { version = "1", features = ["derive"] }
serde_json = "1"

[package]
name = "voxels"
version = "0.1.0"
edition = "2021"
publish = false

[dependencies]
png = "0.18"
serde = { version = "1", features = ["derive"] }
serde_json = "1"
glam = "*"
anyhow = "1"
thiserror = "2"
clap = { version = "4", features = ["derive"] }
either = "1"
pyo3 = "*"

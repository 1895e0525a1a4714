[package]
name = "pnn_core"
version = "0.1.0"
edition = "2021"
publish = false

[dependencies]
csv = "1"
pyo3 = "0.22"
rand = "0.8"
rand_distr = "0.4"
serde = { version = "1", features = ["derive"] }
serde_json = "1"

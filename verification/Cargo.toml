[package]
name = "black_ferox"
version = "0.1.0"
edition = "2021"
publish = false

[dependencies]
serde = { version = "1", features = ["derive"] }
thiserror = "1"
parking_lot = "0.12"
rand = "0.8"
rand_distr = "0.4"
pyo3 = "0.22"

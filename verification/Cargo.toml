[package]
name = "modelautopsy"
version = "0.1.0"
edition = "2021"
publish = false

[dependencies]
numpy = "0.20"
pyo3 = { version = "0.20", features = ["extension-module"] }
rayon = "1"

[package]
name = "id57"
version = "0.1.0"
edition = "2021"
publish = false

[dependencies]
pyo3 = "0.22"
uuid = { version = "1", features = ["v4"] }

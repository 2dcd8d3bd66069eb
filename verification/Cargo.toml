[package]
name = "tract_linalg"
version = "0.1.0"
edition = "2021"
publish = false

[dependencies]
tract-data = "*"
ndarray = "*"

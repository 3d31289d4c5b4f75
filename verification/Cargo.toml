[package]
name = "rusty_fy"
version = "0.1.0"
edition = "2021"
publish = false

[dependencies]
pyo3 = "0.18.3"
nalgebra = "0.32"

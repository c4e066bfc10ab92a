[package]
name = "oxrs"
version = "0.1.0"
edition = "2021"
publish = false

[dependencies]
anyhow = "1"
gdal = "0.17"
pyo3 = "0.20"
thiserror = "1"

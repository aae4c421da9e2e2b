[package]
name = "midas_rs"
version = "0.1.0"
edition = "2021"
publish = false

[dependencies]
color-eyre = "*"
log = "*"
polars = { version = "*", default-features = false, features = ["parquet", "dtype-categorical"] }
polars-io = { version = "*", default-features = false, features = ["parquet"] }
pyo3 = "*"
rayon = "*"

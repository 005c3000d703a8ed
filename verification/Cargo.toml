[package]
name = "cublas_rs"
version = "0.1.0"
edition = "2021"
publish = false

[dependencies]
half = "2"
thiserror = "2"
tracing = "0.1"
cuda-core = "*"

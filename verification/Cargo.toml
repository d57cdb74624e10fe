[package]
name = "kren-core"
version = "0.1.0"
edition = "2021"
publish = false

[dependencies]
libc = "=0.2.191"
thiserror = "=1.0.69"
pyo3 = "0.22"
napi = "2"
napi-derive = "2"

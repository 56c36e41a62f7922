[package]
name = "parquet_lite"
version = "0.2.0"
edition = "2021"
publish = false

[dependencies]
snap = "1"
arrow-array = "*"
arrow-schema = "*"
serde_json = "1"
thiserror = "2"
wasm-bindgen = "0.2"

[package]
name = "mbit"
version = "0.1.0"
edition = "2021"
publish = false

[dependencies]
anyhow = "1"
parking_lot = "0.12"
wasmtime = "46"
wasmtime-wasi = "46"

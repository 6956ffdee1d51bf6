[package]
name = "function_host"
version = "0.1.0"
edition = "2021"
publish = false

[dependencies]
wasmparser = "=0.261.0"
wasmtime = "=48.0.5"
wasmtime-wasi = "=48.0.5"

[dev-dependencies]
serde_json = "=1.0.151"

[package]
name = "wasm_boundary"
version = "0.1.0"
edition = "2021"
publish = false

[dependencies]
wasi-binio-wasm = "=0.1.1"
serde = { version = "=1.0.229", features = ["derive"] }

[dev-dependencies]
bincode = "=1.3.3"
wasi_binio_shared_mods = "=0.1.0"

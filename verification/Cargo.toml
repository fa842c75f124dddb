[package]
name = "loglens_core"
version = "0.1.0"
edition = "2021"
publish = false

[dependencies]
chrono = "*"
humantime = "*"
serde = { version = "*", features = ["derive"] }
serde_json = "*"
wasm-bindgen = "*"
logfmt = "*"

[package]
name = "jamtool"
version = "0.1.0"
edition = "2021"
publish = false

[dependencies]
png = "*"
serde = { version = "1", features = ["derive"] }
serde_json = "1"
wasm-bindgen = "0.2"
serde-wasm-bindgen = "*"

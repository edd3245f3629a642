[package]
name = "dynsort"
version = "0.1.0"
edition = "2021"
publish = false

[dependencies]
serde_json = "*"
wasm-bindgen = "*"
js-sys = "*"
serde-wasm-bindgen = "*"

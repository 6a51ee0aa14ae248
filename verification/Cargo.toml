[package]
name = "draw"
version = "0.1.0"
edition = "2021"
publish = false

[dependencies]
binary-util = "*"
bytes = "*"
safe-transmute = "*"
wasm-bindgen = "*"

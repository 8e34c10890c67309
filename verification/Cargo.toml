[package]
name = "oxide_eval"
version = "0.1.0"
edition = "2021"
publish = false

[dependencies]
rust_decimal = { version = "*", features = ["maths"] }
wasm-bindgen = "*"
console_error_panic_hook = "*"

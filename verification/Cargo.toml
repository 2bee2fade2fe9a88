[package]
name = "stacky_core"
version = "0.1.0"
edition = "2021"
publish = false

[dependencies]
stacky = "*"
console_error_panic_hook = "*"
wasm-bindgen = "*"

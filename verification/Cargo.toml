[package]
name = "delay_effects"
version = "0.1.0"
edition = "2021"
publish = false

[dependencies]
hound = "3"
cpal = "0.15"
wasm-bindgen = "0.2"
web-sys = { version = "0.3", features = ["console"] }
console_error_panic_hook = "0.1"
wee_alloc = "0.4"

[package]
name = "behavior_tree"
version = "0.1.0"
edition = "2021"
publish = false

[dependencies]
async-channel = "*"
bonsai-mdsl = "*"
console_error_panic_hook = "*"
js-sys = "*"
serde_json = "*"
serde-wasm-bindgen = "*"
wasm-bindgen = "*"
wasm-bindgen-futures = "*"
web-sys = { version = "*", features = ["console", "Window"] }
web-time = "*"

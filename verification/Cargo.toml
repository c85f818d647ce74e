[package]
name = "vector_editor_core"
version = "0.1.0"
edition = "2021"
publish = false

[dependencies]
console_error_panic_hook = "0.1"
rustybuzz = "*"
serde = { version = "1", features = ["derive"] }
serde_json = "1"
ttf-parser = "*"
wasm-bindgen = "0.2"

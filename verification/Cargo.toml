[package]
name = "sync"
version = "0.1.0"
edition = "2021"
publish = false

[dependencies]
async-trait = "0.1"
js-sys = "0.3"
wasm-bindgen = "0.2"
wasm-bindgen-futures = "0.4"
web-sys = { version = "0.3", features = ["Response", "Storage", "Window"] }
wee_alloc = "0.4"

[dev-dependencies]
proptest = "1"

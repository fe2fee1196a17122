[package]
name = "indexd"
version = "0.1.0"
edition = "2021"
publish = false

[dependencies]
base64 = "=0.22.1"
chrono = "=0.4.45"
console_error_panic_hook = "=0.1.7"
console_log = "=1.1.0"
ed25519-dalek = "=2.2.0"
js-sys = "=0.3.107"
log = "=0.4.35"
napi = { version = "=2.16.17", features = ["async", "napi6"] }
napi-derive = "=2.16.13"
rand = "=0.9.5"
rustls = { version = "=0.23.46", features = ["ring"] }
rustls-platform-verifier = "=0.6.2"
serde = { version = "=1.0.229", features = ["derive"] }
serde_json = "=1.0.154"
serde-wasm-bindgen = "=0.6.5"
sia_sdk = "=0.2.1"
thiserror = "=2.0.21"
tokio = { version = "=1.54.1", features = ["full"] }
tokio-util = { version = "=0.7.20", features = ["rt"] }
url = "=2.5.8"
wasm-bindgen = "=0.2.130"
wasm-bindgen-futures = "=0.4.80"

[package]
name = "handel"
version = "0.1.0"
edition = "2021"
publish = false

[dependencies]
async-trait = "0.1"
base64 = "=0.21.7"
blake2-rfc = "=0.2.18"
bytes = "=1.12.1"
futures = "=0.3.34"
hex = "=0.4.3"
lock_api = "=0.4.14"
log = "0.4"
parking_lot = "=0.12.5"
pin-project = "=1.1.13"
serde_json = "=1.0.154"
sha2 = "=0.10.9"
thiserror = "=1.0.69"
tokio = { version = "1", features = ["sync", "time"] }
tokio-stream = { version = "0.1", features = ["sync"] }
url = "=2.5.8"
wasm-bindgen = "0.2"

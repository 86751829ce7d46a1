[package]
name = "axiom_engram"
version = "0.1.6"
edition = "2021"
publish = false

[dependencies]
argon2 = "=0.5.3"
async-trait = "=0.1.92"
candle-core = "=0.8.4"
candle-nn = "=0.8.4"
candle-transformers = "=0.8.4"
chrono = { version = "=0.4.45", features = ["serde"] }
hf-hub = "=0.3.2"
parking_lot = "=0.12.5"
rusqlite = { version = "=0.32.1", features = ["bundled-sqlcipher-vendored-openssl"] }
serde = { version = "=1.0.229", features = ["derive"] }
serde_json = "=1.0.154"
sha2 = "=0.10.9"
tokenizers = { version = "=0.20.4", default-features = false, features = ["unstable_wasm"] }
tokio = { version = "=1.54.1", features = ["sync", "rt", "macros"] }
tracing = "=0.1.44"
uuid = { version = "=1.29.0", features = ["v4"] }
wasm-bindgen = "=0.2.130"

[dev-dependencies]
tempfile = "=3.27.0"

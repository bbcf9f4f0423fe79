[package]
name = "ferrite_db"
version = "0.1.0"
edition = "2021"
publish = false

[dependencies]
rayon = "1"
serde = { version = "1", features = ["derive"] }
serde_json = "1"
tokio = { version = "1", features = ["rt-multi-thread", "macros", "sync", "net"] }
axum = "*"
futures = "0.3"
tracing = "0.1"
wasm-bindgen = "0.2"
js-sys = "0.3"
mimalloc = "*"
tikv-jemallocator = "*"

[dev-dependencies]
tempfile = "3"

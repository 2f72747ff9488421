[package]
name = "claw_runtime"
version = "0.1.0"
edition = "2021"
publish = false

[dependencies]
serde = { version = "=1.0.229", features = ["derive"] }
serde_json = "=1.0.154"
sha2 = "=0.10.9"
xxhash-rust = { version = "0.8", features = ["xxh3"] }
toml = "0.8"
dunce = "1"
glob = "0.3"

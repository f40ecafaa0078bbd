[package]
name = "tetris_core"
version = "0.1.0"
edition = "2021"
publish = false

[dependencies]
rand = { version = "0.9", features = ["small_rng", "os_rng", "std"] }
serde = { version = "1", features = ["derive"] }
serde_cbor = "0.11"
bytes = "0.5"
futures_codec = "0.4"

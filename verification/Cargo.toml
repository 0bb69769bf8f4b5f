[package]
name = "engine"
version = "0.1.0"
edition = "2021"
publish = false

[dependencies]
sha2 = "0.10"
uuid = { version = "1", features = ["v4"] }
rand = { version = "0.8", features = ["small_rng"] }
rand_chacha = "0.3"
tokio = { version = "1", features = ["rt-multi-thread", "sync", "time", "macros"] }
async-trait = "0.1"
serde = { version = "1", features = ["derive"] }
rmp-serde = "1"

[package]
name = "sgs_relay"
version = "0.1.0"
edition = "2021"
publish = false

[dependencies]
reqwest = { version = "*", default-features = false }
tokio = { version = "*", features = ["rt-multi-thread", "macros"] }
chrono = "*"

[dev-dependencies]
serde_json = "*"

[package]
name = "scorehub"
version = "0.1.0"
edition = "2021"
publish = false

[dependencies]
tokio = { version = "1", features = ["sync", "rt-multi-thread", "time", "macros", "io-util", "net"] }

[dev-dependencies]
serde_json = "1"

[package]
name = "roomcast"
version = "0.1.0"
edition = "2021"
publish = false

[dependencies]
tokio = { version = "1", default-features = false, features = ["sync", "rt", "time", "macros", "rt-multi-thread"] }
rand = "0.8"
uuid = { version = "1", features = ["v4"] }

[dev-dependencies]
serde_json = "1"

[package]
name = "event_emitter_rs"
version = "0.1.0"
edition = "2021"
publish = false

[dependencies]
bincode = "1.3"
serde = "1"
tokio = { version = "1", default-features = false, features = ["rt"] }
uuid = { version = "1", features = ["v4"] }

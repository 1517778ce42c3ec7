[package]
name = "sandbox_fs"
version = "0.1.0"
edition = "2021"
publish = false

[dependencies]
chrono = "0.4"
futures = "0.3"
globset = "0.4"
ignore = "0.4"
serde = { version = "1", features = ["derive"] }
serde_json = "1"
similar = "2"
tempfile = "3"
tokio = { version = "1", features = ["rt-multi-thread", "fs", "io-util", "macros"] }
uuid = { version = "1", features = ["v4"] }

[package]
name = "fastfin"
version = "0.3.0"
edition = "2021"
publish = false

[dependencies]
reqwest = { version = "0.12", features = ["json"] }
serde = { version = "1", features = ["derive"] }
serde_json = "1"
tokio = { version = "1", features = ["io-util", "net", "time", "sync", "rt", "macros"] }
uuid = { version = "1", features = ["v4"] }

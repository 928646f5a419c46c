[package]
name = "ciel_core"
version = "0.1.0"
edition = "2021"
publish = false

[dependencies]
percent-encoding = "2"
sha2 = "0.10"
uuid = { version = "1", features = ["v4"] }
chrono = "0.4"
rusqlite = { version = "*", features = ["bundled"] }
serde_json = "1"
reqwest = { version = "*", default-features = false }
tokio = { version = "1", features = ["rt-multi-thread", "macros", "time", "fs", "process", "io-util", "sync"] }

[package]
name = "dirsync"
version = "0.1.0"
edition = "2021"
publish = false

[dependencies]
ignore = "0.4"
notify = "*"
serde = { version = "1", features = ["derive"] }
serde-binary = "*"
serde_json = "1"
tokio = { version = "1", features = ["rt-multi-thread", "macros", "net", "io-util", "sync", "time"] }

[package]
name = "buildkit_client"
version = "0.1.0"
edition = "2021"
publish = false

[dependencies]
uuid = { version = "1", features = ["v4"] }
h2 = "0.4"
http = "1"
bytes = "1"
tokio = { version = "1", features = ["rt", "sync", "fs", "io-util", "macros"] }

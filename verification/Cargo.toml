[package]
name = "chat_server"
version = "0.1.0"
edition = "2021"
publish = false

[dependencies]
chrono = { version = "0.4", default-features = false, features = ["clock", "std"] }
chrono-tz = "*"
tokio = { version = "1", features = ["net", "io-util", "io-std", "sync", "signal", "macros", "rt-multi-thread"] }

[package]
name = "message_relay"
version = "0.1.0"
edition = "2021"
publish = false

[dependencies]
bytes = "1"
tokio = { version = "1", features = ["macros", "rt-multi-thread", "net", "sync", "time", "io-util"] }
tokio-util = { version = "*", features = ["codec"] }
tokio-stream = "*"
tokio-tungstenite = "*"
futures = "*"
async-trait = "*"
uuid = { version = "1", features = ["v4"] }
redis = { version = "*", default-features = false }
snafu = "*"

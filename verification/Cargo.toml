[package]
name = "fluke_server"
version = "0.1.0"
edition = "2021"
publish = false

[dependencies]
chrono = { version = "0.4", features = ["serde"] }
dashmap = "5"
dotenvy = "0.15"
futures-util = "0.3"
jsonwebtoken = "9"
num-traits = "0.2"
ordered-float = "4"
serde = { version = "1", features = ["derive"] }
serde_json = "1"
tokio = { version = "1", features = ["full"] }
tokio-stream = "0.1"
uuid = { version = "1", features = ["v4", "serde"] }
warp = "0.3"

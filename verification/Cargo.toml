[package]
name = "roommate"
version = "0.1.0"
edition = "2021"
publish = false

[dependencies]
serde_json = "*"
tokio = { version = "*", features = ["rt-multi-thread", "net", "sync", "macros", "time"] }
tokio-tungstenite = "*"
tungstenite = "*"
futures-util = "*"
uuid = { version = "*", features = ["v4"] }

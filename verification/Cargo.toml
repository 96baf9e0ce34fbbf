[package]
name = "nodeget-agent"
version = "0.1.0"
edition = "2021"
publish = false

[dependencies]
futures-util = { version = "0.3", features = ["sink"] }
log = "0.4"
palc = "*"
portable-pty = "*"
serde = { version = "1", features = ["derive"] }
serde_json = "1"
tokio = { version = "1", features = ["fs", "io-util", "macros", "net", "rt-multi-thread", "sync", "time"] }
tokio-tungstenite = "*"
toml = "*"
url = "2"
uuid = { version = "1", features = ["v4"] }

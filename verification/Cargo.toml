[package]
name = "vantus"
version = "0.2.0"
edition = "2021"
publish = false

[dependencies]
matchit = "0.8"
uuid = { version = "1", features = ["v4"] }
http = "1"
bytes = "1"
serde = { version = "1", features = ["derive"] }
serde_json = "1"
toml = "0.8"
serde_yaml = "0.9"
clap = { version = "4", features = ["derive"] }
tokio = { version = "1", features = ["full"] }
tokio-util = "0.7"
hyper = { version = "1", features = ["full"] }
hyper-util = { version = "0.1", features = ["full"] }
http-body-util = "0.1"
async-trait = "0.1"
futures-util = "0.3"
dashmap = "6"
thiserror = "2"
tracing = "0.1"

[package]
name = "eureka"
version = "0.1.0"
edition = "2021"
publish = false

[dependencies]
serde = { version = "1", features = ["derive"] }
serde_json = "1"
serde_yaml = "0.9"
figment = { version = "0.10", features = ["toml", "env"] }
thiserror = "2"
tokio = { version = "1", features = ["full"] }
tokio-util = "0.7"
uuid = { version = "1", features = ["v7", "serde"] }
async-trait = "0.1"
anyhow = "1"
rusqlite = { version = "*", features = ["bundled"] }
schemars = "*"

[package]
name = "deepseek_stream"
version = "0.1.0"
edition = "2021"
publish = false

[dependencies]
reqwest = { version = "*", default-features = false, features = ["json", "stream"] }
tokio = { version = "*", features = ["rt-multi-thread", "sync", "time"] }
futures-util = "*"
serde = { version = "*", features = ["derive"] }
serde_json = "*"
toml = "*"

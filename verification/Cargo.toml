[package]
name = "tuwunel"
version = "0.1.0"
edition = "2021"
publish = false

[dependencies]
ipaddress = "=0.1.3"
rand = "=0.8.8"
base64 = "=0.22.1"
clap = { version = "=4.6.7", features = ["derive", "env"] }
axum = "=0.8.9"
serde = { version = "=1.0.229", features = ["derive"] }
serde_json = "=1.0.154"
tokio = { version = "=1.54.1", features = ["rt-multi-thread", "macros", "net"] }
futures = "=0.3.34"
ruma = { version = "=0.17.2", default-features = false, features = ["events"] }
toml = { version = "=1.1.8", default-features = false, features = ["std", "serde", "parse"] }

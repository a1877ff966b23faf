[package]
name = "bullrs"
version = "0.1.0"
edition = "2021"
publish = false

[dependencies]
redis = "0.23"
serde = { version = "1", features = ["derive"] }
serde_json = "1"
sha1 = "0.10"
md5 = "0.7"
uuid = { version = "1", features = ["v4"] }
regex = "1"
lazy_static = "1"
thiserror = "1"
tokio = { version = "1", features = ["full"] }
env_logger = "0.10"

[package]
name = "browzer_web"
version = "0.1.0"
edition = "2021"
publish = false

[dependencies]
chrono = { version = "0.4", default-features = false, features = ["std"] }
serde_urlencoded = "0.7"
thiserror = "1"
uuid = { version = "1", features = ["v4"] }

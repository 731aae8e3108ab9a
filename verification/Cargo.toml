[package]
name = "circle_api"
version = "0.1.0"
edition = "2021"
publish = false

[dependencies]
rsa = { version = "=0.9.10", features = ["sha2"] }
rand = "=0.8.8"
base64 = "=0.13.1"
serde = { version = "1", features = ["derive"] }
serde_json = "1"
uuid = { version = "1", features = ["v4", "serde"] }
chrono = { version = "0.4", features = ["serde"] }
reqwest = { version = "0.12", default-features = false, features = ["json"] }
tokio = { version = "1", features = ["rt-multi-thread", "macros"] }
futures = "0.3"

[dev-dependencies]
hex = "0.4"

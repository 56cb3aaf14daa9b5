[package]
name = "lirays_scada"
version = "0.1.0"
edition = "2021"
publish = false

[dependencies]
serde = { version = "=1.0.229", features = ["derive"] }
serde_json = { version = "=1.0.154", features = ["preserve_order"] }
uuid = { version = "=1.29.1", features = ["v4"] }
sled = "=0.34.7"
tokio = { version = "=1.54.1", features = ["full"] }
tokio-tungstenite = "=0.30.0"
futures-util = "=0.3.34"
log = "=0.4.35"
env_logger = "=0.11.11"
jsonwebtoken = "=9.3.1"
chrono = "=0.4.45"
argon2 = "=0.5.3"
base64 = "=0.22.1"
rand = "=0.8.8"
axum = { version = "=0.8.9", features = ["ws"] }

[dev-dependencies]
winnow = "=1.0.5"

[package]
name = "rosbridge"
version = "0.1.0"
edition = "2021"
publish = false

[dependencies]
anyhow = "1"
async-trait = "0.1"
base64 = "0.22"
ciborium = "0.2"
clap = { version = "4", features = ["derive"] }
futures = "0.3"
futures-util = "0.3"
parking_lot = "0.12"
png = "0.17"
r2r = "*"
ros2-client = "0.8"
rustdds = "0.11"
rustls-pemfile = "2"
serde = { version = "1", features = ["derive"] }
serde_json = "1"
thiserror = "1"
tokio = { version = "1", features = ["full"] }
tokio-rustls = "0.26"
tokio-tungstenite = "0.24"
tracing = "0.1"
tracing-subscriber = { version = "0.3", features = ["env-filter"] }

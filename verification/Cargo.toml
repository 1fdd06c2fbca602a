[package]
name = "sensor_profiles"
version = "0.1.0"
edition = "2021"
publish = false

[dependencies]
axum = { version = "*", features = ["ws"] }
clap = { version = "*", features = ["derive"] }
futures-util = "*"
serde = { version = "*", features = ["derive"] }
serde_json = "*"
serialport = { version = "*", default-features = false }
tokio = { version = "*", features = ["full"] }
tower-http = { version = "*", features = ["fs", "cors"] }

[package]
name = "effectserver2_rs"
version = "0.1.0"
edition = "2021"
publish = false

[dependencies]
tokio = { version = "1", features = ["sync", "rt", "rt-multi-thread", "macros", "net", "time"] }
serde = { version = "1", features = ["derive"] }
serde_json = "1"
serde_yaml = "0.9"
crossbeam = "0.8"
serialport = { version = "4", default-features = false }
axum = { version = "0.6", features = ["ws"] }
axum-client-ip = "0.4"
futures-util = "0.3"

[dev-dependencies]

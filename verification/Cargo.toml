[package]
name = "azalea"
version = "0.1.0"
edition = "2021"
publish = false

[dependencies]
aes = "0.8"
flate2 = "1"
uuid = { version = "1", features = ["serde"] }
serde = { version = "1", features = ["derive"] }
thiserror = "2"
tokio = { version = "1", features = ["net", "io-util", "sync", "time", "rt", "macros"] }
parking_lot = "0.12"
tracing = "0.1"
bevy_app = "0.15"
bevy_ecs = "0.15"
bevy_time = "0.15"

[dev-dependencies]
serde_json = "1"
cfb8 = "0.8"

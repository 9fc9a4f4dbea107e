[package]
name = "comsrv_protocols"
version = "0.1.0"
edition = "2021"
publish = false

[dependencies]
serde = { version = "=1.0.229", features = ["derive"] }
serde_json = "=1.0.154"
uuid = { version = "=1.29.0", features = ["v4"] }
chrono = "=0.4.45"
tokio = { version = "=1.54.1", features = ["net", "io-util", "time", "rt", "sync"] }
tracing = "=0.1.44"
async-trait = "=0.1.92"
futures = "=0.3.34"
reqwest = { version = "=0.12.28", default-features = false, features = ["json"] }
url = "=2.5.8"
rumqttc = { version = "=0.24.0", default-features = false }
tokio-serial = { version = "=5.5.0", default-features = false }

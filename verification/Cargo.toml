[package]
name = "lamarrs"
version = "0.1.0"
edition = "2021"
publish = false

[dependencies]
base64ct = { version = "1", features = ["alloc"] }
clap = { version = "4", features = ["derive"] }
color-eyre = "0.6"
futures-util = "0.3"
humantime-serde = "1"
midly = { version = "0.5", default-features = false, features = ["std"] }
rumqttc = "*"
serde = { version = "1", features = ["derive"] }
serde_yaml = "0.9"
sha1 = "0.10"
thiserror = "*"
tokio = { version = "1", features = ["full"] }
tokio-tungstenite = "*"
tracing = "0.1"
tracing-subscriber = { version = "0.3", features = ["env-filter"] }
uuid = { version = "1", features = ["v4"] }

[dev-dependencies]
heapless = "*"
postcard = { version = "1", features = ["alloc"] }
serde_json = "1"

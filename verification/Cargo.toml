[package]
name = "beava"
version = "0.1.0"
edition = "2021"
publish = false

[dependencies]
anyhow = "1"
bytes = "1"
clap = { version = "4", features = ["derive"] }
console-subscriber = "*"
crossbeam-channel = "0.5"
futures = "0.3"
hdrhistogram = "7"
humantime = "2"
mio = { version = "1", features = ["net", "os-poll"] }
rand = "0.8"
rmp = "0.8"
rmp-serde = "1"
serde = { version = "1", features = ["derive"] }
serde_json = { version = "1", features = ["raw_value"] }
sonic-rs = "*"
thiserror = "*"
tokio = { version = "1", features = ["full"] }
tokio-util = { version = "0.7", features = ["rt"] }
tracing = "0.1"
tracing-subscriber = { version = "0.3", features = ["env-filter"] }

[package]
name = "rail_common"
version = "0.1.0"
edition = "2021"
publish = false

[dependencies]
url = "=2.5.8"
anyhow = "=1.0.104"
serde = { version = "=1.0.229", features = ["derive"] }
tokio = { version = "=1.54.1", features = ["net", "sync", "macros", "rt-multi-thread", "time"] }
reqwest = { version = "=0.13.5", default-features = false, features = ["json"] }
clap = { version = "=4.6.7", features = ["derive", "env"] }
metrics-exporter-prometheus = { version = "=0.18.3", default-features = false, features = ["http-listener"] }

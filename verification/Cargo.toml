[package]
name = "patch_mirror"
version = "0.1.0"
edition = "2021"
publish = false

[dependencies]
serde_json = "=1.0.151"
serde = { version = "*", features = ["derive"] }
tokio = { version = "*", features = ["full"] }
reqwest = { version = "*", default-features = false }
axum = "*"
tower = { version = "*", features = ["buffer", "limit", "timeout", "util"] }
clap = { version = "*", features = ["derive", "env"] }
futures-util = "*"
tokio-stream = "*"
tokio-util = { version = "*", features = ["io"] }
eventsource-client = "=0.17.5"
quickxml_to_serde = "*"

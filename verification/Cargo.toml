[package]
name = "dpm_core"
version = "0.1.0"
edition = "2021"
publish = false

[dependencies]
serde_json = "*"
reqwest = { version = "*", default-features = false, features = ["stream"] }
tokio = { version = "*", default-features = false, features = ["fs", "io-util"] }
futures-util = "*"

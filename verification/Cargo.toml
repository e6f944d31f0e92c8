[package]
name = "visionary"
version = "0.1.0"
edition = "2021"
publish = false

[dependencies]
anyhow = "=1.0.104"
hash40 = "=1.3.1"
nutexb = "=0.7.0"
prc-rs = "=1.6.1"
serde = { version = "=1.0.229", features = ["derive"] }
serde_json = { version = "=1.0.154", features = ["raw_value"] }
ssbh_data = "=0.19.0"

[package]
name = "hostmetrics"
version = "0.1.0"
edition = "2021"
publish = false

[dependencies]
futures-util = "0.3"
serde = { version = "1", features = ["derive"] }
serde_json = "1"
serde_yaml = "0.9"
tokio = { version = "1", features = ["macros", "rt-multi-thread", "time"] }
warp = "0.3"

[package]
name = "gr3sync"
version = "0.1.0"
edition = "2021"
publish = false

[dependencies]
btleplug = "0.12"
clap = { version = "=4.6.7", features = ["derive"] }
serde = { version = "=1.0.229", features = ["derive"] }
serde_json = "=1.0.154"
tokio = { version = "=1.54.1", features = ["rt-multi-thread", "time"] }
toml = "=0.8.23"
ureq = { version = "=3.5.1", default-features = false }
uuid = "=1.29.0"

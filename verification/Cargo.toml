[package]
name = "lala_bar"
version = "0.1.0"
edition = "2021"
publish = false

[dependencies]
chrono = "=0.4.45"
url = "=2.5.8"
futures = "=0.3.34"
tokio = { version = "=1.54.1", features = ["time", "sync"] }
env_logger = "=0.11.11"
tracing = "=0.1.44"

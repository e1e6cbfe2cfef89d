[package]
name = "siem_pipeline"
version = "0.1.0"
edition = "2021"
publish = false

[dependencies]
bincode = "1.3.3"
tokio = { version = "1", features = ["net", "io-util", "time", "rt-multi-thread", "macros"] }

[dev-dependencies]
serde = "1"

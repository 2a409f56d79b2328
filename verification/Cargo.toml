[package]
name = "commitlog"
version = "0.1.0"
edition = "2021"
publish = false

[dependencies]
bytes = "1"
crc32c = "0.6"
hex = "0.4"
tokio = { version = "1", features = ["fs", "io-util"] }

[dev-dependencies]
rand = "0.8"

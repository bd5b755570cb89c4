[package]
name = "s3_sink_core"
version = "0.1.0"
edition = "2021"
publish = false

[dependencies]
bytes = "*"
chrono = "*"
uuid = { version = "*", features = ["v4"] }

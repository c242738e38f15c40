[package]
name = "indradb"
version = "0.1.0"
edition = "2021"
publish = false

[dependencies]
chrono = "=0.4.45"
serde_json = { version = "=1.0.151", features = ["float_roundtrip"] }

[package]
name = "persist_client"
version = "0.1.0"
edition = "2021"
publish = false

[dependencies]
uuid = { version = "=1.2.2", features = ["v4"] }
timely = "=0.31.0"
differential-dataflow = "=0.25.1"
semver = "=1.0.28"
serde = { version = "=1.0.229", features = ["derive"] }
chrono = { version = "=0.4.45", default-features = false, features = ["std"] }

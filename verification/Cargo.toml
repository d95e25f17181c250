[package]
name = "resumable_jobs"
version = "0.1.0"
edition = "2021"
publish = false

[dependencies]
serde = { version = "*", features = ["derive"] }
serde_json = "*"
tokio = { version = "*", features = ["fs", "io-util"] }
async_zip = { version = "*", features = ["tokio"] }
uuid = { version = "*", features = ["v4"] }

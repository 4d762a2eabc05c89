[package]
name = "zeroclaw"
version = "0.7.3"
edition = "2021"
publish = false

[dependencies]
anyhow = "1.0.102"
async-trait = "0.1"
axum = "0.8.8"
chrono = { version = "0.4.44", default-features = false, features = ["clock", "std"] }
reqwest = { version = "0.12.28", default-features = false, features = ["json"] }
serde = { version = "1.0.228", features = ["derive"] }
serde_json = "1"
tokio = { version = "1.50.0", features = ["rt", "sync", "macros", "time"] }
tokio-stream = "0.1"
tracing = "0.1.44"
uuid = { version = "1.23.0", features = ["v4"] }

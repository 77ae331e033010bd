[package]
name = "state_keeper"
version = "0.1.0"
edition = "2021"
publish = false

[dependencies]
anyhow = "1"
async-trait = "0.1"
backoff = "0.4"
chrono = { version = "0.4", default-features = false, features = ["std"] }
metrics = "0.21"
reqwest = { version = "0.11", default-features = false, features = ["blocking", "json"] }
serde = { version = "1", features = ["derive"] }
thiserror = "1"
tokio = { version = "1", features = ["sync", "time", "rt"] }

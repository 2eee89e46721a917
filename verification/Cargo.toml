[package]
name = "covert"
version = "0.1.0"
edition = "2021"
publish = false

[dependencies]
hex = "=0.4.3"
sharks = "=0.5.0"
aes-gcm = "=0.10.3"
rand = "=0.8.8"
uuid = { version = "=1.29.0", features = ["v4"] }
chrono = { version = "=0.4.45", features = ["serde"] }
serde = { version = "=1.0.229", features = ["derive"] }
serde_json = "=1.0.154"
anyhow = "=1.0.104"
tokio = { version = "=1.54.1", features = ["sync", "time", "rt", "macros"] }
reqwest = { version = "=0.11.27", default-features = false, features = ["json"] }
futures = "0.3"

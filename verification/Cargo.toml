[package]
name = "g3icap"
version = "0.1.0"
edition = "2021"
publish = false

[dependencies]
http = "1"
bytes = "1"
tokio = { version = "1", features = ["full"] }
async-trait = "0.1"
serde = { version = "1", features = ["derive"] }
serde_json = "1"
thiserror = "2"
anyhow = "1"
slog = "2"
chrono = { version = "0.4", default-features = false, features = ["clock"] }
rand = "0.9"
uuid = { version = "1", features = ["v4"] }

[package]
name = "bebe_ai"
version = "0.1.0"
edition = "2021"
publish = false

[dependencies]
scraper = "*"
reqwest = { version = "*", features = ["json"] }
tokio = { version = "*", features = ["full"] }
serde = { version = "*", features = ["derive"] }
serde_json = "*"
axum = "*"
tower-http = { version = "*", features = ["fs"] }
tracing = "*"
tracing-subscriber = "*"

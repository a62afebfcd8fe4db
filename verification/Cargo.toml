[package]
name = "gamemaster"
version = "0.1.0"
edition = "2021"
publish = false

[dependencies]
arc-swap = "1"
once_cell = "1"
reqwest = { version = "0.12", default-features = false, features = ["json", "rustls-tls"] }
serde = { version = "1", features = ["derive"] }
tokio = { version = "1", features = ["rt", "time", "macros"] }
tracing = "0.1"

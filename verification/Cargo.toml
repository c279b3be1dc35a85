[package]
name = "wordle_solver"
version = "0.1.0"
edition = "2021"
publish = false

[dependencies]
anyhow = "1"
reqwest = { version = "0.12", default-features = false, features = ["json", "rustls-tls"] }
serde = { version = "1", features = ["derive"] }
serde_json = "1"
serenity = { version = "0.12", default-features = false, features = ["client", "gateway", "rustls_backend", "model"] }
shuttle-runtime = "*"
shuttle-serenity = "*"
tokio = { version = "1", features = ["sync", "rt", "macros"] }
tracing = "0.1"

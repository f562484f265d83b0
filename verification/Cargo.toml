[package]
name = "fundbot"
version = "0.1.0"
edition = "2021"
publish = false

[dependencies]
thousands = "*"
serenity = { version = "0.11", default-features = false, features = ["client", "gateway", "rustls_backend", "model", "http", "utils", "framework", "standard_framework"] }
tokio = { version = "1", features = ["macros", "rt-multi-thread", "signal", "time"] }
reqwest = { version = "0.11", default-features = false, features = ["json", "rustls-tls"] }
serde = { version = "1", features = ["derive"] }
serde_derive = "1"
serde_json = "1"
toml = "*"
anyhow = "1"
tracing = "0.1"
tracing-subscriber = { version = "0.3", features = ["env-filter"] }

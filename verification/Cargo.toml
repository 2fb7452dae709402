[package]
name = "trmnl-display"
version = "0.1.0"
edition = "2021"
publish = false

[dependencies]
ab_glyph = "0.2"
anyhow = "1"
axum = "0.8"
chrono = "0.4"
chrono-tz = "0.10"
dotenvy = "0.15"
image = { version = "0.25", default-features = false, features = ["png"] }
imageproc = "0.25"
reqwest = { version = "0.12", default-features = false, features = ["json", "rustls-tls"] }
serde = { version = "1", features = ["derive"] }
serde_json = "1"
tokio = { version = "1", features = ["full"] }
tracing = "0.1"
tracing-subscriber = { version = "0.3", features = ["env-filter"] }

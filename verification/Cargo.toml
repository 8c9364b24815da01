[package]
name = "atuin-web"
version = "0.1.0"
edition = "2021"
publish = false

[dependencies]
axum = "0.8"
clap = { version = "4", features = ["derive", "env"] }
humantime = "2"
mime_guess = "2"
minijinja = { version = "2", features = ["loader"] }
reqwest = { version = "0.12", default-features = false, features = ["json"] }
rust-embed = "8"
serde = { version = "1", features = ["derive"] }
serde_json = "1"
thiserror = "2"
tokio = { version = "1", features = ["full"] }
tower-sessions = "*"
tower-sessions-memory-store = "*"
tracing = "0.1"
tracing-subscriber = { version = "0.3", features = ["env-filter"] }

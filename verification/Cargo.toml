[package]
name = "vislog"
version = "0.1.0"
edition = "2021"
publish = false

[dependencies]
axum = "0.7"
config = { version = "0.14", default-features = false, features = ["toml"] }
lazy_static = "1"
reqwest = { version = "0.12", default-features = false, features = ["json"] }
serde = { version = "1", features = ["derive"] }
serde_json = "1"
thiserror = "1"
tokio = { version = "1", features = ["full"] }
tower = "0.4"
tower-http = { version = "0.5", features = ["fs", "request-id", "trace"] }
tracing = "0.1"
tracing-subscriber = { version = "0.3", features = ["env-filter"] }

[package]
name = "nexus"
version = "0.1.0"
edition = "2021"
publish = false

[dependencies]
async-trait = "=0.1.92"
axum = "=0.8.9"
chrono = "=0.4.45"
clap = { version = "=4.6.7", features = ["derive"] }
futures = "=0.3.34"
opentelemetry = { version = "=0.33.1", features = ["metrics"] }
pubky = "=0.10.0"
pubky-app-specs = { version = "=0.8.1", features = ["openapi"] }
redis = { version = "=1.8.1", features = ["tokio-comp"] }
serde = { version = "=1.0.229", features = ["derive"] }
serde_json = "=1.0.154"
tokio = { version = "=1.54.1", features = ["sync", "time", "rt", "macros", "fs"] }
tracing = "=0.1.44"
utoipa = "=5.5.0"

[package]
name = "mutehub"
version = "0.1.0"
edition = "2021"
publish = false

[dependencies]
uuid = { version = "=1.27.0", features = ["v4", "serde"] }
axum = { version = "=0.6.20", features = ["ws"] }
tokio = { version = "=1.53.2", features = ["macros", "rt-multi-thread", "sync"] }
futures = "=0.3.34"
serde = { version = "1", features = ["derive"] }
tower-http = { version = "=0.4.4", features = ["cors", "fs", "trace"] }
tracing = "0.1"
tracing-subscriber = "0.3"

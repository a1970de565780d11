[package]
name = "anycms_event"
version = "0.1.0"
edition = "2021"
publish = false

[dependencies]
serde = { version = "1", features = ["derive"] }
serde_json = "1"
tokio = { version = "1", features = ["full"] }
tracing = "0.1"
dashmap = "6"
thiserror = "2"
futures-util = "0.3"
redis = { version = "0.27", features = ["tokio-comp", "connection-manager"] }
prometheus = "0.13"
axum = "0.8"
actix-web = { version = "4", default-features = false, features = ["macros"] }
http = "1"

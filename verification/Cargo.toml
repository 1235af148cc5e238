[package]
name = "unidpp_projector"
version = "0.1.0"
edition = "2021"
publish = false

[dependencies]
serde = { version = "=1.0.229", features = ["derive"] }
serde_json = "=1.0.154"
serde_yaml = "0.9"
tokio = { version = "1", features = ["net", "rt-multi-thread", "macros", "io-util", "time", "signal", "sync"] }
axum = "0.8"
utoipa = "5"
utoipa-swagger-ui = { version = "9", features = ["axum", "vendored"] }

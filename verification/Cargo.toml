[package]
name = "opcgw"
version = "0.1.0"
edition = "2021"
publish = false

[dependencies]
axum = "0.8"
base64 = "0.22"
chrono = "0.4"
constant_time_eq = "0.3"
figment = { version = "0.10", features = ["toml"] }
getrandom = "0.2"
serde = { version = "1", features = ["derive"] }
serde_json = "1"
sha2 = "0.10"
tempfile = "3"
thiserror = "2"
tokio = { version = "1", features = ["full"] }
tokio-util = "0.7"
toml = "0.8"
toml_edit = "0.22"
tower-http = { version = "0.6", features = ["fs", "set-header"] }
tracing = "0.1"

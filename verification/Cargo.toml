[package]
name = "openco"
version = "0.1.0"
edition = "2021"
publish = false

[dependencies]
axum = "0.7"
percent-encoding = "2"
serde = { version = "1", features = ["derive"] }
serde_json = "1"
tokio = { version = "1", features = ["full"] }
tokio-stream = "0.1"
tower-http = { version = "0.5", features = ["fs"] }
ureq = "2"
webbrowser = "1"

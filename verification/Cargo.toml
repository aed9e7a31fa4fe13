[package]
name = "live_md"
version = "0.1.0"
edition = "2021"
publish = false

[dependencies]
anyhow = "1"
async-stream = "0.3"
axum = "0.7"
futures = "0.3"
notify = "6"
pulldown-cmark = { version = "0.12", default-features = false, features = ["html"] }
tokio = { version = "1", features = ["full"] }
tower-http = { version = "0.5", features = ["fs"] }
webbrowser = "1"

[package]
name = "file_session_store"
version = "0.1.0"
edition = "2021"
publish = false

[dependencies]
tower-sessions = "*"
serde_json = "*"
axum = "*"
time = "*"

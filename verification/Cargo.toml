[package]
name = "single_threaded_server"
version = "0.1.0"
edition = "2021"
publish = false

[dependencies]
matchit = "0.8"
serde = { version = "1", features = ["derive"] }
serde_json = "1"
serde_urlencoded = "0.7"

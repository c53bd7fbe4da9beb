[package]
name = "http_body"
version = "0.1.0"
edition = "2021"
publish = false

[dependencies]
async-std = "1.6"
futures-lite = "1.11"
pin-project-lite = "0.2"
serde = "1.0"
serde_json = "1.0"
serde_urlencoded = "0.7"

[package]
name = "rlm_sandbox"
version = "0.1.6"
edition = "2021"
publish = false

[dependencies]
getrandom = "0.2"
reqwest = { version = "0.12", default-features = false, features = ["blocking", "json", "rustls-tls"] }
serde = { version = "1", features = ["derive"] }
serde_json = "1"
tiny_http = "0.12"

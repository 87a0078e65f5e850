[package]
name = "chocobase"
version = "0.1.0"
edition = "2021"
publish = false

[dependencies]
hmac = "0.12"
sha2 = "0.10"
subtle = "2"
getrandom = "0.2"
serde = { version = "1", features = ["derive"] }
serde_json = "1"

[package]
name = "playlog"
version = "0.1.0"
edition = "2021"
publish = false

[dependencies]
hex = "0.4"
hmac = "0.12"
sha2 = "0.10"
reqwest = { version = "0.12", default-features = false, features = ["blocking"] }

[dev-dependencies]
serde_json = "1"

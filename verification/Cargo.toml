[package]
name = "agent"
version = "0.1.0"
edition = "2021"
publish = false

[dependencies]
futures = "0.3"
rusoto_core = { version = "0.48", default-features = false, features = ["rustls"] }
ssh-agent = "*"

[dev-dependencies]
base64 = "0.13"
serde_json = "1"

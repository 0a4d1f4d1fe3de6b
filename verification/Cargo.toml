[package]
name = "dolphin"
version = "0.1.0"
edition = "2021"
publish = false

[dependencies]
sha2 = "=0.10.9"
serde = { version = "=1.0.229", features = ["derive"] }
toml = "=0.8.23"
zip = { version = "=2.6.1", default-features = false, features = ["deflate"] }
ureq = "3"
url = "2"

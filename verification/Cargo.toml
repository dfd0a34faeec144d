[package]
name = "odt_reader"
version = "0.1.0"
edition = "2021"
publish = false

[dependencies]
quick-xml = "0.22"
xml-rs = "0.8"
zip = { version = "0.5", default-features = false, features = ["deflate"] }
serde = { version = "1", features = ["derive"] }
serde_json = "1"
tiny_http = "0.12"

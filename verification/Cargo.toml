[package]
name = "daml_ide"
version = "0.1.0"
edition = "2021"
publish = false

[dependencies]
getrandom = "0.3"
serde = { version = "1", features = ["derive"] }
serde_json = "1"
tiny_http = "0.12"
zed_extension_api = "*"

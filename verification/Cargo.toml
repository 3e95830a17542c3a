[package]
name = "gravivol"
version = "0.1.0"
edition = "2021"
publish = false

[dependencies]
actix-web = { version = "4", default-features = false, features = ["macros", "rustls-0_23"] }
base64 = "0.22"
env_logger = "0.11"
json-patch = "*"
log = "0.4"
rustls = "0.23"
rustls-pemfile = "2"
serde = { version = "1", features = ["derive"] }
serde_json = "1"

[package]
name = "svc_config"
version = "0.1.0"
edition = "2021"
publish = false

[dependencies]
toml = { version = "0.8", features = ["preserve_order"] }
serde_json = "1"
handlebars = "6"
blake2 = "0.10"

[package]
name = "kvjson"
version = "0.1.0"
edition = "2021"
publish = false

[dependencies]
clap = { version = "4", features = ["cargo"] }
unicode-bom = "*"

[dev-dependencies]
serde_json = "*"

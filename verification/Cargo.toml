[package]
name = "mirae_server"
version = "0.1.0"
edition = "2021"
publish = false

[dependencies]
rand = "0.7"
serde_json = "1"
serde_jacl = "*"
websocket = { version = "*", default-features = false, features = ["sync"] }

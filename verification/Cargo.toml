[package]
name = "bottlerocket_tools"
version = "0.1.0"
edition = "2021"
publish = false

[dependencies]
base64 = "0.22"
shlex = "1"
percent-encoding = "2"
url = "2"
serde = { version = "1", features = ["derive"] }
serde_json = "1"
toml = "0.8"
which = "*"

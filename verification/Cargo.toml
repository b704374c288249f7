[package]
name = "clustermon"
version = "0.1.0"
edition = "2021"
publish = false

[dependencies]
rand = "*"
actix = "*"
actix-rt = "*"
actix-web = "*"
actix-web-actors = "*"
actix-files = "*"
env_logger = "*"
log = "*"
serde = { version = "*", features = ["derive"] }
serde_json = "*"
ssh2 = "*"
toml = "*"

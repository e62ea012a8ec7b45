[package]
name = "hcl2json"
version = "0.1.0"
edition = "2021"
publish = false

[dependencies]
hcl-rs = "*"
serde_json = { version = "*", features = ["preserve_order"] }
glob = "*"
clap = { version = "*", features = ["derive"] }
anyhow = "*"

[package]
name = "block_api"
version = "0.1.0"
edition = "2021"
publish = false

[dependencies]
cid = "0.5"
multihash = "0.11"
mime = "0.3"

[dev-dependencies]
serde_json = "1"

[package]
name = "hark"
version = "0.1.0"
edition = "2021"
publish = false

[dependencies]
anyhow = "1"
base64 = "0.22"
lofty = "*"
notify = "*"
ogg = "0.9"
opus = "*"
reqwest = { version = "*", features = ["blocking", "json"] }
rodio = "*"
rust-embed = "8"
rusty-chromaprint = "*"
serde_json = { version = "1", features = ["float_roundtrip"] }
xattr = "1"
zbus = "5"

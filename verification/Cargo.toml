[package]
name = "certified_assets"
version = "0.1.0"
edition = "2021"
publish = false

[dependencies]
sha2 = "0.10"
base64 = "0.13"
mime_guess = "2"
lzma-rs = "0.3"
tar = "0.4"

[dev-dependencies]
serde_cbor = "0.11"

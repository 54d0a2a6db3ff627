[package]
name = "mcupdate"
version = "0.1.0"
edition = "2021"
publish = false

[dependencies]
serde = { version = "=1.0.229", features = ["derive"] }
serde_json = "=1.0.154"
sha2 = "=0.10.9"
sha1 = "=0.10.7"
base64 = "=0.22.1"
urlencoding = "=2.1.3"
base16ct = { version = "=0.2.0", features = ["alloc"] }
json = "=0.12.4"
pulldown-cmark = { version = "0.13", default-features = false, features = ["html"] }
ammonia = "4"

[package]
name = "iactive"
version = "0.1.0"
edition = "2021"
publish = false

[dependencies]
mac_address = "*"
sha2 = "0.10"
aes = "0.8"
cbc = "0.1"
xml-rs = "0.8"
rusqlite = { version = "*", features = ["bundled"] }
dirs = "*"
open = "*"
reqwest = { version = "*", default-features = false, features = ["blocking", "rustls-tls"] }

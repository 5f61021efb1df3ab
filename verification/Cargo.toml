[package]
name = "safepass"
version = "0.1.0"
edition = "2021"
publish = false

[dependencies]
fernet = { version = "0.2", default-features = false, features = ["rustcrypto"] }
rusqlite = { version = "*", features = ["bundled"] }
dialoguer = "*"
copypasta = "*"
colored = "*"
home = "*"

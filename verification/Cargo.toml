[package]
name = "rustcast"
version = "0.1.0"
edition = "2021"
publish = false

[dependencies]
sha2 = "0.10"
hex = "0.4"
serde_json = "1"
minreq = { version = "2", features = ["https"] }
log = "0.4"
tempfile = "3"
zip = { version = "*", default-features = false, features = ["deflate"] }
rusqlite = { version = "*", features = ["bundled"] }
arboard = "3"
objc2 = "0.6"
objc2-app-kit = "0.3"
objc2-foundation = "0.3"
libc = "0.2"

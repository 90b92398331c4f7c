[package]
name = "leveldbcat"
version = "0.1.1"
edition = "2021"
publish = false

[dependencies]
serde = { version = "1", features = ["derive"] }
serde_json = "1"
csv = "1"
sys-locale = "*"
dirs = "*"
rusty-leveldb = "*"
tempfile = "3"
fontdb = "*"
rfd = "*"

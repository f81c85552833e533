[package]
name = "kwork_parser"
version = "0.1.0"
edition = "2021"
publish = false

[dependencies]
base64 = "0.22"
dotenvy = "0.15"
frankenstein = { version = "*", default-features = false, features = ["client-ureq"] }
libc = "0.2"
log = "0.4"
serde = { version = "1", features = ["derive"] }
serde_json = "1"
ureq = "3"

[package]
name = "omarchy_calendar"
version = "0.1.0"
edition = "2021"
publish = false

[dependencies]
base64 = "0.22"
chrono = "0.4"
libc = "0.2"
rand = "0.8"
rusqlite = { version = "0.32", features = ["bundled"] }
serde_json = "1"
sha2 = "0.10"
signal-hook = "0.3"
ureq = "3"
url = "2"
uuid = { version = "1", features = ["v4"] }

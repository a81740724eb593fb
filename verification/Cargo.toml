[package]
name = "unidl"
version = "0.1.0"
edition = "2021"
publish = false

[dependencies]
sha1_smol = "=1.0.1"
encoding_rs = "=0.8.44"
reqwest = { version = "=0.13.5", default-features = false, features = ["blocking", "json", "multipart", "cookies", "form", "query", "socks"] }
serde = { version = "=1.0.229", features = ["derive"] }
serde_json = "=1.0.154"
uuid = { version = "=1.29.0", features = ["v4"] }
chrono = "=0.4.45"
base64 = "=0.23.1"
zip = { version = "=9.2.2", default-features = false, features = ["deflate"] }
rusqlite = { version = "=0.41.1", features = ["bundled"] }
tiny_http = "=0.12.0"
notify = "=8.2.1"
arboard = { version = "=3.7.0", default-features = false }
windows-registry = "=0.100.0"
windows-sys = { version = "=0.61.2", features = ["Win32_System_Power"] }

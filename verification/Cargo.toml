[package]
name = "zhangji"
version = "0.1.0"
edition = "2021"
publish = false

[dependencies]
base64 = "=0.22.1"
calamine = "=0.26.1"
chrono = "=0.4.45"
rusqlite = { version = "=0.32.1", features = ["bundled"] }
rust_xlsxwriter = "=0.102.0"
serde = { version = "=1.0.229", features = ["derive"] }
serde_json = "=1.0.154"
zip = { version = "=2.2.0", default-features = false, features = ["deflate"] }

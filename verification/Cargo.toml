[package]
name = "gaze_core"
version = "0.1.0"
edition = "2021"
publish = false

[dependencies]
base64 = "*"
rusqlite = { version = "*", features = ["bundled"] }
r2d2 = "*"
r2d2_sqlite = { version = "*", features = ["bundled"] }
serde = { version = "*", features = ["derive"] }
serde_json = "*"
url = "*"

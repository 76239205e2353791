[package]
name = "hive"
version = "0.1.0"
edition = "2021"
publish = false

[dependencies]
anyhow = "=1.0.104"
chrono = "=0.4.45"
image = "=0.25.10"
image_hasher = "=3.1.1"
kamadak-exif = "0.6"
mime_guess = "2"
rusqlite = { version = "=0.41.1", features = ["bundled"] }
serde = { version = "=1.0.229", features = ["derive"] }
serde_json = "=1.0.154"
sha2 = "=0.10.9"
uuid = { version = "=1.29.0", features = ["v4"] }
walkdir = "=2.5.0"

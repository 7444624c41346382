[package]
name = "meeting_recorder"
version = "0.1.0"
edition = "2021"
publish = false

[dependencies]
chrono = "*"
uuid = { version = "*", features = ["v4"] }
dirs = "*"
cpal = "*"
rusqlite = { version = "*", features = ["bundled"] }
hound = "*"
reqwest = { version = "*", default-features = false, features = ["blocking", "json"] }
dotenv = "*"
whisper-rs = "*"
serde = { version = "*", features = ["derive"] }
serde_json = "*"

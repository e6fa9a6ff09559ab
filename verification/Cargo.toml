[package]
name = "limitless"
version = "0.1.0"
edition = "2021"
publish = false

[dependencies]
aes-gcm = "=0.10.3"
base64 = "=0.22.1"
sha2 = "=0.10.9"
regex = "=1.13.1"
uuid = { version = "=1.29.0", features = ["v4"] }
chrono = "=0.4.45"
rusqlite = { version = "=0.31.0", features = ["bundled"] }
serde = { version = "=1.0.229", features = ["derive"] }
reqwest = { version = "=0.12.28", default-features = false, features = ["cookies"] }
tokio = { version = "=1.54.1", features = ["time", "macros", "rt-multi-thread"] }
winapi = { version = "=0.3.9", features = ["processthreadsapi", "handleapi", "minwinbase", "winnt", "winuser", "windef", "minwindef"] }

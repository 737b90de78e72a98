[package]
name = "rdtool"
version = "0.1.5"
edition = "2021"
publish = false

[dependencies]
aes-gcm = "0.10"
anyhow = "1"
base64 = "0.22"
blake3 = { version = "1", default-features = false, features = ["std", "pure"] }
chrono = "0.4"
dirs = "*"
egui = "*"
egui-phosphor = "*"
machine-uid = "*"
reqwest = { version = "0.12", default-features = false, features = ["json", "multipart", "rustls-tls"] }
rusqlite = { version = "*", features = ["bundled"] }
serde = { version = "1", features = ["derive"] }
serde_json = "1"
tokio = { version = "1", features = ["rt-multi-thread", "macros", "time", "fs", "io-util", "process", "sync"] }
uuid = { version = "1", features = ["v4"] }

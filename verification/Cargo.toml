[package]
name = "jotty_core"
version = "0.1.0"
edition = "2021"
publish = false

[dependencies]
uuid = { version = "=1.29.0", features = ["v4"] }
chrono = "=0.4.45"
semver = "=1.0.28"
base64 = "=0.22.1"
serde = { version = "=1.0.229", features = ["derive"] }
serde_json = "=1.0.154"
reqwest = { version = "=0.12.28", default-features = false, features = ["json", "multipart", "rustls-tls"] }
rusqlite = { version = "=0.32.1", features = ["bundled"] }
tokio = { version = "=1.54.1", features = ["rt-multi-thread", "macros", "sync", "fs", "io-util", "time"] }
hound = "=3.5.1"
keyring = { version = "=3.6.3", features = ["apple-native", "windows-native", "linux-native-sync-persistent", "crypto-rust", "vendored"] }

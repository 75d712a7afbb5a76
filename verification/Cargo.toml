[package]
name = "rwinscp"
version = "0.1.0"
edition = "2021"
publish = false

[dependencies]
chrono = { version = "=0.4.45", default-features = false, features = ["alloc", "std"] }
anyhow = "=1.0.104"
serde = { version = "=1.0.229", features = ["derive"] }
serde_json = "=1.0.154"
dirs = "=7.0.0"
keyring = { version = "=4.2.0", default-features = false }
ssh2 = "=0.9.6"
suppaftp = "=12.2.1"
tokio = { version = "=1.54.1", features = ["rt", "fs", "io-util"] }
aws-sdk-s3 = { version = "=1.157.0", default-features = false, features = ["behavior-version-latest", "rt-tokio", "default-https-client"] }
ureq = { version = "=2.12.1", default-features = false, features = ["json"] }
egui = "=0.37.0"
eframe = { version = "=0.37.0", default-features = false, features = ["default_fonts", "glow"] }
rfd = { version = "=0.17.2", default-features = false }

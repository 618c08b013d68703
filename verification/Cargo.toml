[package]
name = "wayland-file-manager"
version = "0.1.0"
edition = "2021"
publish = false

[dependencies]
thiserror = "1"
serde = { version = "1", features = ["derive"] }
serde_json = "1"
dirs = "5"
walkdir = "2"
notify = "6"
tokio = { version = "1", features = ["fs", "io-util", "rt", "macros"] }
tracing = "0.1"
tracing-appender = "0.2"
tracing-subscriber = { version = "0.3", features = ["env-filter"] }
chrono = "0.4"
image = { version = "0.25", default-features = false, features = ["png", "jpeg", "gif", "webp", "bmp"] }
gtk4 = "*"

[package]
name = "sapf_as_plain_text"
version = "0.1.0"
edition = "2021"
publish = false

[dependencies]
chrono = { version = "=0.4.45", default-features = false, features = ["clock"] }
dirs = "=6.0.0"
eframe = { version = "=0.31.1", default-features = false, features = ["glow", "x11"] }
egui = { version = "=0.31.1", default-features = false }
portable-pty = "=0.9.0"
rfd = { version = "0.15", default-features = false, features = ["xdg-portal", "tokio"] }
serde = { version = "=1.0.229", features = ["derive"] }
serde_json = "=1.0.154"

[package]
name = "railwatch"
version = "0.1.0"
edition = "2021"
publish = false

[dependencies]
anyhow = "=1.0.104"
chrono = "=0.4.45"
chrono-tz = "=0.10.4"
clap = { version = "=4.6.7", features = ["derive", "env"] }
iana-time-zone = "=0.1.65"
libc = "=0.2.191"
rusqlite = { version = "=0.37.0", features = ["bundled"] }
serde = { version = "=1.0.229", features = ["derive"] }
serde_json = "=1.0.154"
slint = { version = "=1.4.1", default-features = false, features = ["std", "compat-1-2", "renderer-software"] }
uuid = { version = "=1.29.0", features = ["v4"] }

[package]
name = "codecrab"
version = "0.1.0"
edition = "2021"
publish = false

[dependencies]
anyhow = "1"
axum = "0.8"
axum-server = { version = "*", features = ["tls-rustls"] }
bytes = "1"
chrono = { version = "0.4", features = ["serde"] }
chrono-tz = "*"
clap = { version = "4", features = ["derive"] }
croner = "*"
directories = "*"
iana-time-zone = "0.1"
libc = "0.2"
portable-pty = "*"
rcgen = "*"
reqwest = { version = "*", features = ["json", "multipart", "stream"] }
rpassword = "*"
serde = { version = "1", features = ["derive"] }
serde_json = "1"
sha2 = "0.10"
tokio = { version = "1", features = ["full"] }
tokio-stream = "0.1"
toml = "*"
url = "2"
uuid = { version = "1", features = ["v4", "serde"] }
walkdir = "2"
yaml_serde = "*"

[dev-dependencies]
tempfile = "3"

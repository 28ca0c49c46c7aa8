[package]
name = "syncor"
version = "0.1.0"
edition = "2021"
publish = false

[dependencies]
anyhow = "1"
chkpt-core = "*"
chrono = "0.4"
clap = { version = "4", features = ["derive"] }
dialoguer = "*"
dirs = "*"
fs4 = "0.12"
indicatif = "0.17"
libc = "0.2"
lz4_flex = "*"
notify = "*"
rusqlite = "*"
serde = { version = "1", features = ["derive"] }
serde_json = "1"
tempfile = "3"
thiserror = "*"
tokio = { version = "1", features = ["full"] }
toml = "0.8"
tracing = "0.1"
tracing-subscriber = "0.3"
uuid = { version = "1", features = ["v7"] }

[dev-dependencies]
regex = "1"

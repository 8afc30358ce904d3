[package]
name = "nemux"
version = "0.1.0"
edition = "2021"
publish = false

[dependencies]
anyhow = "1"
bincode = "1"
crossterm = "0.28"
dirs = "5"
env_logger = "0.11"
interprocess = "2"
libc = "0.2"
log = "0.4"
portable-pty = "0.8"
ratatui = "0.29"
serde = { version = "1", features = ["derive"] }
toml = "0.8"
vt100 = "0.15"

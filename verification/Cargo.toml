[package]
name = "fileserver_backup"
version = "0.1.0"
edition = "2021"
publish = false

[dependencies]
anyhow = "1"
chrono = "0.4"
clap = { version = "4", features = ["derive", "env"] }
cron = "*"
env_logger = "0.11"
filetime = "0.2"
log = "0.4"
ssh2 = "0.9"
tar = "0.4"
url = "2"
walkdir = "2"
xz2 = "0.1"

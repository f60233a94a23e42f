[package]
name = "unicorn"
version = "0.1.0"
edition = "2021"
publish = false

[dependencies]
rand = "0.8"
rgb = "0.8"
spidev = "0.5"
rppal = "0.14"
tokio = { version = "1", features = ["rt", "rt-multi-thread", "sync"] }
psutil = { version = "3", default-features = false, features = ["cpu", "memory"] }
clap = { version = "3", features = ["derive"] }
color-eyre = "0.6"
env_logger = "0.9"
log = "0.4"
inotify = "0.10"
libc = "0.2"
nix = "0.26"

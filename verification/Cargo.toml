[package]
name = "aseqkeeper"
version = "0.1.0"
edition = "2021"
publish = false

[dependencies]
alsa = "*"
clap = "2"
flexi_logger = "*"
libc = "0.2"
log = "0.4"
serde = { version = "1", features = ["derive"] }
serde_json = "1"
xdg = "2"

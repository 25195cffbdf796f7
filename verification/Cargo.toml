[package]
name = "sysinfo_reader"
version = "0.1.0"
edition = "2021"
publish = false

[dependencies]
actix-web = "3"
env_logger = "0.8"
getopts = "0.2"
libc = "0.2"
num-traits = "0.2"
serde = { version = "1", features = ["derive"] }
signal-hook = "0.3"
sysinfo = "0.20"

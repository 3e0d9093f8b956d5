[package]
name = "sys_monitor"
version = "0.1.0"
edition = "2021"
publish = false

[dependencies]
anyhow = "1"
aya = { version = "0.13", features = ["async_tokio"] }
aya-log = "0.2"
bytes = "1"
chrono = "0.4"
clap = { version = "4", features = ["derive"] }
color-eyre = "0.6"
crossterm = "0.28"
env_logger = "0.11"
log = "0.4"
ratatui = "0.29"
tokio = { version = "1", features = ["full"] }

[package]
name = "systemd_boot_friend"
version = "0.1.0"
edition = "2021"
publish = false

[dependencies]
anyhow = "*"
clap = { version = "*", features = ["derive"] }
dialoguer = "*"
libsdbootconf = "*"
serde = { version = "*", features = ["derive"] }
toml = "*"

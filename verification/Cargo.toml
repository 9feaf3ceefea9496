[package]
name = "merlon"
version = "2.0.0"
edition = "2021"
publish = false

[dependencies]
anyhow = "*"
chrono = "*"
clap = { version = "*", features = ["derive"] }
fs_extra = "*"
heck = "*"
inquire = "*"
log = "*"
pretty_env_logger = "*"
scopeguard = "*"
semver = "*"
serde = { version = "*", features = ["derive"] }
sha1 = "*"
shellexpand = "*"
thiserror = "*"
toml = "*"

[package]
name = "skillfile"
version = "0.1.0"
edition = "2021"
publish = false

[dependencies]
clap = { version = "4", features = ["derive"] }
cliclack = "*"
console = "*"
crossterm = "*"
dirs = "*"
inquire = "*"
ratatui = "*"
semver = "1"
serde = { version = "1", features = ["derive"] }
serde_json = "1"
similar = "2"
tempfile = "3"
thiserror = "*"
toml = "*"
ureq = "*"

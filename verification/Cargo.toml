[package]
name = "oflh"
version = "0.1.0"
edition = "2021"
publish = false

[dependencies]
libc = "0.2"
semver = "1"
sha2 = "0.10"
netstat2 = "0.11"
rustix = { version = "1", features = ["process"] }
crossterm = "0.28"
ratatui = "0.29"
unicode-width = "0.2"
thiserror = "2"

[package]
name = "mtrm"
version = "0.1.0"
edition = "2021"
publish = false

[dependencies]
vt100 = "0.15"
crossterm = "0.28"
ratatui = "0.29"
arboard = { version = "3", default-features = false }
directories = "5"
nix = { version = "0.29", features = ["term", "signal", "process"] }
portable-pty = "0.8"
serde = { version = "1", features = ["derive"] }
thiserror = "2"
toml = "0.8"

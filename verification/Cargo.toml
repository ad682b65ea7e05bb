[package]
name = "kinesin"
version = "0.1.0"
edition = "2021"
publish = false

[dependencies]
nix = "0.26"
clap = { version = "4", features = ["derive"] }
serde = { version = "1", features = ["derive"] }
toml = "0.8"
which = "4"

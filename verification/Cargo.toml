[package]
name = "sqlite-rs"
version = "0.1.0"
edition = "2021"
publish = false

[dependencies]
nix = { version = "*", features = ["fs"] }
thiserror = "*"

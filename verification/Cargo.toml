[package]
name = "ctrlc"
version = "0.1.0"
edition = "2021"
publish = false

[dependencies]
byteorder = "*"
nix = { version = "*", features = ["fs", "poll", "process", "signal", "uio"] }

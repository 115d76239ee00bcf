[package]
name = "nix_installer"
version = "0.1.0"
edition = "2021"
publish = false

[dependencies]
blake2 = "0.8"
clap = "2"
nix = { version = "*", features = ["fs", "user"] }

[dev-dependencies]
proptest = "1"

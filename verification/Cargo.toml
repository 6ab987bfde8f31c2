[package]
name = "disko_zfs"
version = "0.1.0"
edition = "2021"
publish = false

[dependencies]
glob = "0.3"
clap = { version = "4", features = ["derive"] }
log = "0.4"
serde = { version = "1", features = ["derive"] }
serde_json = "1"
ser_nix = "*"
simple_logger = "*"
thiserror = "*"

[package]
name = "abbr"
version = "0.1.0"
edition = "2021"
publish = false

[dependencies]
anyhow = "=1.0.104"
bincode = "=1.3.3"
clap = { version = "=4.6.7", features = ["derive"] }
dirs = "=5.0.1"
fastrand = "=2.5.0"
hashbrown = "=0.15.5"
nix = { version = "=0.29.0", features = ["fs", "user"] }
rinja = "=0.3.5"
serde = { version = "=1.0.229", features = ["derive"] }

[package]
name = "decster"
version = "0.1.0"
edition = "2021"
publish = false

[dependencies]
anyhow = "=1.0.104"
bincode = { version = "=2.0.1", features = ["derive"] }
clap = { version = "=4.6.7", features = ["derive", "cargo"] }
crossterm = "=0.29.0"
dirs = "=7.0.0"
globset = "=0.4.21"
indexmap = "=2.14.2"
itertools = "=0.15.0"
log = "=0.4.35"
env_logger = "=0.11.11"
nix = { version = "=0.31.3", features = ["user", "fs"] }
serde = { version = "=1.0.229", features = ["derive"] }
sha2 = "=0.11.1"
termtree = "=1.0.0"
thiserror = "=2.0.21"
toml = "=1.1.8"
upon = "*"
walkdir = "=2.5.0"

[package]
name = "aliasmgr"
version = "0.1.0"
edition = "2021"
publish = false

[dependencies]
owo-colors = "*"
globset = "*"
indexmap = { version = "*", features = ["serde"] }
serde = { version = "*", features = ["derive"] }
toml = "*"
clap = { version = "*", features = ["derive"] }
dialoguer = "*"
anyhow = "*"
log = "*"
env_logger = "*"
nix = { version = "*", features = ["fs"] }
cross-xdg = "*"

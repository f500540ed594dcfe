[package]
name = "betrayal"
version = "0.1.0"
edition = "2021"
publish = false

[dependencies]
nix = { version = "*", features = ["uio", "process"] }
procmaps = "*"
petgraph = "*"
clap = "*"
serde = { version = "*", features = ["derive"] }
serde_yaml = "*"
indexmap = { version = "*", features = ["serde"] }
notify = "*"
tempfile = "*"
rhai = "*"

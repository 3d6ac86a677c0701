[package]
name = "trace-tui"
version = "0.1.0"
edition = "2021"
publish = false

[dependencies]
alloy-primitives = "=1.7.3"
alloy-rpc-types-trace = "*"
revm-inspectors = { version = "*", default-features = false, features = ["serde", "std"] }
ratatui = { version = "*", default-features = false, features = ["crossterm"] }
clap = { version = "*", default-features = false, features = ["std", "derive"] }
serde_json = "*"
eyre = "*"

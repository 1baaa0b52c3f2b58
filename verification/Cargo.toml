[package]
name = "cargo-tribute"
version = "0.6.0"
edition = "2021"
publish = false

[dependencies]
cargo_metadata = "*"
clap = { version = "4", features = ["derive"] }
serde = { version = "1", features = ["derive"] }
serde_json = { version = "1", features = ["preserve_order"] }
spdx = { version = "*", features = ["text", "detection"] }
toml = "*"

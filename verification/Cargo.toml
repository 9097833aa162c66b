[package]
name = "nix_editor"
version = "0.1.0"
edition = "2021"
publish = false

[dependencies]
rnix = "0.11"
anyhow = "1"
clap = { version = "3.2", features = ["derive"] }
serde = { version = "1", features = ["derive"] }
serde_json = "1"

[package]
name = "loghub2recon"
version = "0.1.0"
edition = "2021"
publish = false

[dependencies]
clap = { version = "*", features = ["derive"] }
color-eyre = "*"
csv = "*"
regex = "*"
serde = { version = "*", features = ["derive"] }
toml = "*"
toml_edit = "*"

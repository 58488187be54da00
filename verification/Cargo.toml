[package]
name = "cargo_release"
version = "0.1.0"
edition = "2021"
publish = false

[dependencies]
anyhow = "1"
cargo_metadata = "*"
clap = { version = "4", features = ["derive"] }
clap-cargo = "*"
difflib = "0.4"
dunce = "1"
env_logger = "*"
log = "0.4"
regex = "1"
semver = "1"
time = { version = "0.3", features = ["formatting", "macros"] }
toml_edit = "*"

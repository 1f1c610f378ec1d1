[package]
name = "cargo-clean-global"
version = "1.2.2"
edition = "2021"
publish = false

[dependencies]
clap = { version = "4", features = ["derive"] }
console = "*"
dirs-next = "2"
indicatif = "*"
toml = "*"

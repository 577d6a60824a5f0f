[package]
name = "supergit"
version = "0.1.0"
edition = "2021"
publish = false

[dependencies]
clap = { version = "4", features = ["derive"] }
crossterm = "0.28"
directories = "5"
git2 = { version = "0.19", default-features = false }
inquire = "0.7"
regex = "1"
serde = { version = "1", features = ["derive"] }
toml = "0.8"

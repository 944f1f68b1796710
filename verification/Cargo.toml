[package]
name = "mdsite"
version = "0.1.0"
edition = "2021"
publish = false

[dependencies]
chrono = "0.4"
clap = { version = "4", features = ["derive"] }
pulldown-cmark = "*"
syntect = { version = "5", default-features = false, features = ["default-fancy"] }
thiserror = "*"
toml = "*"
walkdir = "2"

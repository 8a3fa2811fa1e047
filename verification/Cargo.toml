[package]
name = "shell_quote"
version = "0.1.0"
edition = "2021"
publish = false

[dependencies]
bstr = "*"
clap = { version = "*", features = ["derive", "env"] }

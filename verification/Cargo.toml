[package]
name = "lex"
version = "0.1.0"
edition = "2021"
publish = false

[dependencies]
anyhow = "*"
thiserror = "*"
strum = { version = "*", features = ["derive"] }
clap = { version = "*", features = ["derive"] }

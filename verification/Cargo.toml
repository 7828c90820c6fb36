[package]
name = "thebe"
version = "0.1.0"
edition = "2021"
publish = false

[dependencies]
anyhow = "1"
ariadne = "0.5"
clap = { version = "4", features = ["derive"] }

[package]
name = "domlist"
version = "0.1.0"
edition = "2021"
publish = false

[dependencies]
clap = { version = "4", features = ["derive"] }
prettytable-rs = "0.10"
ssh2 = "0.9"

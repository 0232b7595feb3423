[package]
name = "remote"
version = "1.0.0"
edition = "2021"
publish = false

[dependencies]
rand = "0.7"
rust-crypto = "0.2"
clap = "2"
crossterm = "*"
ssh2 = "0.9"
sqlite = "*"
cookie = "*"

[package]
name = "relaty"
version = "0.1.0"
edition = "2021"
publish = false

[dependencies]
clap = "2"
rand = "0.8"
regex = "1"

[dev-dependencies]
bincode = "1"

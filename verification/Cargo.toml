[package]
name = "core_battle"
version = "0.1.0"
edition = "2021"
publish = false

[dependencies]
array-init = "2"
clap = { version = "4", features = ["derive"] }
rand = "0.8"

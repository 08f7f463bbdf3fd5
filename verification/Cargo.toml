[package]
name = "ssh-key-sync"
version = "0.1.15"
edition = "2021"
publish = false

[dependencies]
clap = { version = "4", features = ["derive"] }

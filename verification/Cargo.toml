[package]
name = "virtual_memory_sim"
version = "0.1.0"
edition = "2021"
publish = false

[dependencies]
clap = { version = "4", features = ["derive"] }
indicatif = "0.17"
linked-hash-map = "0.5"

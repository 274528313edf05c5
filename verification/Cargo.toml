[package]
name = "moonrust"
version = "0.1.0"
edition = "2021"
publish = false

[dependencies]
nom = "7"
rand = "0.8"
clap = { version = "4.1", features = ["cargo", "derive"] }

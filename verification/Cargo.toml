[package]
name = "ootw_image"
version = "0.1.0"
edition = "2021"
publish = false

[dependencies]
clap = { version = "3", features = ["cargo"] }
image = { version = "0.24", default-features = false, features = ["png"] }

[package]
name = "uvi"
version = "0.1.0"
edition = "2021"
publish = false

[dependencies]
clap = { version = "*", features = ["derive"] }
git2 = { version = "*", default-features = false }
reqwest = { version = "*", default-features = false, features = ["blocking"] }

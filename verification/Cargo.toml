[package]
name = "leafsweep"
version = "0.1.0"
edition = "2021"
publish = false

[dependencies]
clap = { version = "*", features = ["derive"] }
indicatif = "*"
rayon = "*"
zip = { version = "*", default-features = false, features = ["deflate"] }

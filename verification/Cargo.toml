[package]
name = "langdetect"
version = "0.1.0"
edition = "2021"
publish = false

[dependencies]
regex = "*"
serde = { version = "*", features = ["derive"] }
serde_json = "*"
rand = "*"
rand_distr = "*"

[package]
name = "raffle"
version = "0.1.0"
edition = "2021"
publish = false

[dependencies]
csv = "1"
itertools = "0.10"
rand = "0.8"
rand_chacha = "0.3"
serde = { version = "1", features = ["derive"] }

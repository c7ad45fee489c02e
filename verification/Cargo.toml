[package]
name = "cellular"
version = "0.1.0"
edition = "2021"
publish = false

[dependencies]
bit-vec = "=0.6.3"
rand = "=0.8.8"
gif = "=0.11.4"
clap = "=2.34.0"
indicatif = "=0.16.2"
console = { version = "=0.16.6", default-features = false, features = ["std"] }

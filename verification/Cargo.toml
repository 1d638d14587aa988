[package]
name = "gem"
version = "0.1.0"
edition = "2021"
publish = false

[dependencies]
anyhow = "1"
crossbeam-channel = "0.5"
crossterm = "0.19"
cursive = { version = "0.17", default-features = false, features = ["crossterm-backend"] }
data-encoding = "2"
directories-next = "2"
env_logger = "0.8"
lazy_static = "1"
ring = "0.16"
rustls = { version = "0.19", features = ["dangerous_configuration"] }
tui = { version = "0.14", default-features = false, features = ["crossterm"] }
webpki = "0.21"
x509-parser = { version = "0.9", features = ["verify"] }

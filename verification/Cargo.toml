[package]
name = "jones21cma"
version = "0.1.0"
edition = "2021"
publish = false

[dependencies]
clap = { version = "=4.6.7", features = ["derive"] }
fitsio = { version = "=0.21.10", features = ["fitsio-src"] }
ndarray = "=0.17.2"
num = "=0.4.3"
serde = { version = "=1.0.229", features = ["derive"] }
serde_yaml = "=0.9.34"

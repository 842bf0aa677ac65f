[package]
name = "ss_proxy"
version = "0.1.0"
edition = "2021"
publish = false

[dependencies]
simple-dns = "*"
mio = { version = "0.8", features = ["os-poll", "net"] }
chrono = "0.4"

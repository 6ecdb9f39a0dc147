[package]
name = "order_server"
version = "0.1.0"
edition = "2021"
publish = false

[dependencies]
chrono = "*"
httparse = "*"
rand = "*"

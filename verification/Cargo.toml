[package]
name = "alerta"
version = "0.1.0"
edition = "2021"
publish = false

[dependencies]
rapid-qoi = "*"
raqote = { version = "*", default-features = false }

[package]
name = "webserver"
version = "0.1.0"
edition = "2021"

[dependencies]
chrono = "0.4"
tera = "1"

[package]
name = "load_balancer"
version = "0.1.0"
edition = "2021"
publish = false

[dependencies]
rand = "0.8"
http = "*"
async-trait = "*"
pingora = { version = "*", features = ["proxy", "lb"] }
pingora-core = "*"

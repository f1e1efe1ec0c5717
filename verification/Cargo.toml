[package]
name = "xan"
version = "0.1.0"
edition = "2021"
publish = false

[dependencies]
memchr = "=2.8.3"
shlex = "=1.3.0"
minus = { version = "5", features = ["static_output"] }

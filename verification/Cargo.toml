[package]
name = "re_epmd"
version = "0.1.0"
edition = "2021"
publish = false

[dependencies]
libc = "0.2"
net2 = "0.2"

[package]
name = "mellow_ui"
version = "0.1.0"
edition = "2021"
publish = false

[dependencies]
async-channel = "*"
fastrand = "*"
gtk4 = "*"
libadwaita = "*"

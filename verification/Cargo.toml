[package]
name = "thomas"
version = "0.2.4"
edition = "2021"
publish = false

[dependencies]
crossterm = "*"
device_query = "*"
dyn-clone = "*"

[package]
name = "oranjformat"
version = "0.1.0"
edition = "2021"
publish = false

[dependencies]
anyhow = "1"
arrayvec = "0.7"
bulletformat = "*"
rand = "0.9"

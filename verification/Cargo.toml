[package]
name = "charabia"
version = "0.1.0"
edition = "2021"
publish = false

[dependencies]
lindera = "*"
once_cell = "*"

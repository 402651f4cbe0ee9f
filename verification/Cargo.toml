[package]
name = "fin"
version = "0.1.0"
edition = "2021"
publish = false

[dependencies]
rowan = "*"
logos = "*"
salsa = "*"
dashmap = "*"
unicode-ident = "*"

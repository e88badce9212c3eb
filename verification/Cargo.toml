[package]
name = "colcrypt"
version = "0.1.0"
edition = "2021"
publish = false

[dependencies]
argon2 = "*"
hex = "*"
rand = "*"
rayon = "*"
xsalsa20poly1305 = "*"

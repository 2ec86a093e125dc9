[package]
name = "m65_field_jacket"
version = "0.1.0"
edition = "2021"
publish = false

[dependencies]
age = "0.11"
age-core = "0.11"
anyhow = "1"
argon2 = "0.5"
chacha20poly1305 = "0.10"
clap = { version = "4", features = ["derive"] }
hex = "0.4"
rand = "0.9"
rpassword = "7"
secrecy = "0.10"
serde = { version = "1", features = ["derive"] }
serde_json = "1"

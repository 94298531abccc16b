[package]
name = "azul"
version = "0.1.0"
edition = "2021"
publish = false

[dependencies]
anyhow = "1"
rand = "0.8"
strum = "0.26"
strum_macros = "0.26"

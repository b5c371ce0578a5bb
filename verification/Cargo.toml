[package]
name = "firework_lang"
version = "0.1.0"
edition = "2021"
publish = false

[dependencies]
strsim = "*"
clap = "2"

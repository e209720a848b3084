[package]
name = "replcheck"
version = "0.1.0"
edition = "2021"
publish = false

[dependencies]
regex = "*"
rexpect = "*"
pandoc_ast = "*"
anyhow = "*"

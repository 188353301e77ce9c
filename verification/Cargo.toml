[package]
name = "pdf2text"
version = "0.1.0"
edition = "2021"
publish = false

[dependencies]
clap = "*"
pdf-extract = "*"

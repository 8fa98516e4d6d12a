[package]
name = "text_scroll"
version = "0.1.0"
edition = "2021"
publish = false

[dependencies]
regex = "1"
structopt = "0.3"
raylib = "3.7"

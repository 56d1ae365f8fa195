[package]
name = "mdrender"
version = "0.1.0"
edition = "2021"
publish = false

[dependencies]
ansi_term = "0.12"
syntect = "5"
url = "2"
pulldown-cmark = "0.8"

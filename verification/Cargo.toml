[package]
name = "fontmanager"
version = "0.1.0"
edition = "2021"
publish = false

[dependencies]
anyhow = "*"
log = "*"
colog = "*"
prettytable-rs = "*"
font-kit = "*"
freetype-rs = "*"
pangocairo = "*"

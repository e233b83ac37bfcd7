[package]
name = "tax_brackets"
version = "0.1.0"
edition = "2021"
publish = false

[dependencies]
num = "*"
log = "*"
structopt = "*"
isocountry = "*"
fern = "*"
chrono = "*"

[package]
name = "moss_fmt"
version = "1.0.0"
edition = "2021"
publish = false

[dependencies]
clap = "*"
log = "*"
simplelog = "*"
zip = "*"

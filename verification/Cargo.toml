[package]
name = "kn"
version = "0.3.0"
edition = "2021"
publish = false

[dependencies]
alphanumeric-sort = "1.4"
clap = "2.33"
pico-args = "0.4"
powierza-coefficient = "*"
regex = "1"
strsim = "0.10"
termion = "1.5"
thiserror = "1"
unicode-width = "0.1"

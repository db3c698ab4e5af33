[package]
name = "pbfextractor"
version = "0.1.0"
edition = "2021"
publish = false

[dependencies]
byteorder = "1"
clap = "2"
env_logger = "0.9"
flate2 = "1"
log = "0.4"
osmpbfreader = "*"

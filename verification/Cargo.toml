[package]
name = "yahmc"
version = "0.1.0"
edition = "2021"
publish = false

[dependencies]
bit-set = "*"
log = "*"
simple_logger = "*"
rlua = "*"

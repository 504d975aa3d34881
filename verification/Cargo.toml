[package]
name = "booleanop"
version = "0.1.0"
edition = "2021"
publish = false

[dependencies]
float_next_after = "*"
geo-types = "*"
num-traits = "*"

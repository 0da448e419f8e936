[package]
name = "shivarthu"
version = "0.1.0"
edition = "2021"
publish = false

[dependencies]
num-integer = "*"
parity-scale-codec = "*"
sp-io = "*"
sp-npos-elections = "*"
sp-runtime = "*"

[package]
name = "wfupdate"
version = "0.1.0"
edition = "2021"
publish = false

[dependencies]
rust-crypto = "=0.2.36"
rust-lzma = "=0.6.0"
rand = "=0.10.3"
rust-ini = "=0.21.3"
xdg = "=3.0.0"
clap = "=4.6.7"
bytesize = "=2.7.0"
users = "=0.11.0"
time = "=0.3.55"

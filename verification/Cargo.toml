[package]
name = "hanabi"
version = "0.1.0"
edition = "2021"
publish = false

[dependencies]
rand = "0.7"
rustc-serialize = "0.3"
actix = "0.10"
actix-web = "3"
actix-web-actors = "3"
actix-rt = "1"

[package]
name = "anduinos_control"
version = "0.1.0"
edition = "2021"
publish = false

[dependencies]
async-channel = "2"
notify = "6"
gettext-rs = "0.7"

[package]
name = "hocg_fan_sim"
version = "0.1.0"
edition = "2021"
publish = false

[dependencies]
rand = "0.8"
async-channel = "2"

[package]
name = "pingas"
version = "0.1.0"
edition = "2021"
publish = false

[dependencies]
clap = "=2.34.0"
fastping-rs = "=0.2.4"
image = "=0.22.5"

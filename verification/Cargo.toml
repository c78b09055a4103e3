[package]
name = "hpgl"
version = "0.1.0"
edition = "2021"

[dependencies]
minidom = "0.12"
rusttype = "0.8"
serialport = { version = "3.3", default-features = false }
structopt = "0.3"

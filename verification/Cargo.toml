[package]
name = "russet"
version = "0.1.0"
edition = "2021"
publish = false

[dependencies]
rand = "0.8"
uuid = { version = "1", features = ["v4"] }
bimap = "0.6"
crossterm = "0.26"
flexi_logger = { version = "0.25", default-features = false }
log = "0.4"

[package]
name = "rgbd_calib"
version = "0.1.0"
edition = "2021"
publish = false

[dependencies]
rhdl = "0.1.0"
image = { version = "0.25", default-features = false, features = ["png"] }

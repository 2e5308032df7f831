[package]
name = "ros2_message"
version = "0.1.0"
edition = "2021"
publish = false

[dependencies]
md-5 = "*"
hex = "*"

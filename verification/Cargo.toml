[package]
name = "presence_dimmer"
version = "0.1.0"
edition = "2021"
publish = false

[dependencies]
opencv = "*"
brightness = "*"

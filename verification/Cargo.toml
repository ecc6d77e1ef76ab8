[package]
name = "relm4-store"
version = "0.1.0"
edition = "2021"
publish = false

[dependencies]
relm4 = "0.4"

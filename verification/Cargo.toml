[package]
name = "qoi"
version = "0.1.0"
edition = "2021"
publish = false

[dependencies]
devserver_lib = "0.4"
hotwatch = "0.4"

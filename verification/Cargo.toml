[package]
name = "script_object"
version = "0.1.0"
edition = "2021"
publish = false

[dependencies]
enumset = "1"
gc-arena = "0.2"

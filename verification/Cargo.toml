[package]
name = "multibase"
version = "0.1.0"
edition = "2021"
publish = false

[dependencies]
base-x = "0.2"
base256emoji = "1"
data-encoding = "2"
data-encoding-macro = "0.1"

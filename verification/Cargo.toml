[package]
name = "corroder"
version = "0.1.0"
edition = "2021"
publish = false

[dependencies]
regex = "1"
lalrpop-util = "0.16"
walkdir = "2"
maplit = "1"

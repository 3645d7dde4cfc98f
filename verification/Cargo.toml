[package]
name = "memfs"
version = "0.1.0"
edition = "2021"
publish = false

[dependencies]
async-lock = "*"
async-trait = "*"
futures = "*"
miette = "*"
thiserror = "*"

[package]
name = "taildir"
version = "0.1.0"
edition = "2021"
publish = false

[dependencies]
notify = "4.0"
walkdir = "2"

[package]
name = "ryn"
version = "0.1.0"
edition = "2021"
publish = false

[dependencies]
rustyline = "*"
ctrlc = "*"
dirs = "*"
colored = "*"
chrono = "*"
hostname = "*"
humantime = "*"
os_pipe = "*"

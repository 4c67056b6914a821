[package]
name = "turing_machines"
version = "0.1.0"
edition = "2021"

[dependencies]
libc = "0.2"

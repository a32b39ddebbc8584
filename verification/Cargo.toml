[package]
name = "rvsdg"
version = "0.1.0"
edition = "2021"
publish = false

[dependencies]
petgraph = "=0.6.5"
thiserror = "=1.0.69"

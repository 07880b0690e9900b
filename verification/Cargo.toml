[package]
name = "panes"
version = "0.1.0"
edition = "2021"
publish = false

[dependencies]
futures = "0.3.34"
async-io = "2.6.0"

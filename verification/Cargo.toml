[package]
name = "ddos_stage1"
version = "0.1.0"
edition = "2021"
publish = false

[dependencies]
byteorder = "1"
crossbeam-channel = "0.5"
log = "0.4"

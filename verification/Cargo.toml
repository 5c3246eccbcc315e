[package]
name = "mininet"
version = "0.1.0"
edition = "2021"
publish = false

[dependencies]
httparse = "1"
futures = "0.3"
async-std = "1"
async-trait = "0.1"
async-io = "2"
embedded-nal = "0.6"
serde = "1"
serde_json = "1"

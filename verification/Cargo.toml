[package]
name = "ether"
version = "0.1.0"
edition = "2021"
publish = false

[dependencies]
url = "1"
futures = "0.1"
http = "0.1"
hyper = "0.12"
tokio = "0.1"
bytes = "0.4"

[package]
name = "filter_engine"
version = "0.1.0"
edition = "2021"
publish = false

[dependencies]
adblock = { version = "=0.13.3", default-features = false, features = ["embedded-domain-resolver", "full-regex-handling"] }

[package]
name = "attr_matcher"
version = "0.1.0"
edition = "2021"
publish = false

[dependencies]
encoding_rs = "0.8"
lazycell = "1"
memchr = "2"
selectors = "0.22"

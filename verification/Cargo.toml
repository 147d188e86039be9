[package]
name = "jbmf_parser"
version = "0.1.0"
edition = "2021"
publish = false

[dependencies]
anyhow = "1"
byteorder = "1"
thiserror = "1"

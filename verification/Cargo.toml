[package]
name = "acas_stitch"
version = "0.1.0"
edition = "2021"
publish = false

[dependencies]
thiserror = "1"

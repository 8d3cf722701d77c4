[package]
name = "term_background"
version = "0.1.0"
edition = "2021"
publish = false

[dependencies]
colorgrad = "0.6"
fastrand = "2"

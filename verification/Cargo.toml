[package]
name = "comment_by"
version = "0.1.0"
edition = "2021"
publish = false

[dependencies]
encoding_rs_io = "0.1"
structopt = "0.3"

[package]
name = "lamp"
version = "0.1.0"
edition = "2021"
publish = false

[dependencies]
log = "0.4"
simple_logger = "1"
structopt = "0.3"

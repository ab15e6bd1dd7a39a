[package]
name = "roughenough-client"
version = "0.1.0"
edition = "2021"
publish = false

[dependencies]
ring = "0.17"
chrono = "0.4"
data-encoding = "2"
clap = "2"
log = "0.4"
simple_logger = "1"
num_cpus = "1"

[package]
name = "lightswitch"
version = "0.1.0"
edition = "2021"
publish = false

[dependencies]
anyhow = "=1.0.104"
clap = { version = "=4.6.7", features = ["derive"] }
crossbeam-channel = "=0.5.17"
gimli = "=0.34.0"
libbpf-rs = "=0.23.3"
libc = "=0.2.191"
object = "=0.40.0"
page_size = "=0.6.0"
procfs = "=0.16.0"
tracing = "=0.1.44"
tracing-subscriber = "=0.3.23"

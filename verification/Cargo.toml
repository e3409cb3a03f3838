[package]
name = "lanscan"
version = "0.1.0"
edition = "2021"
publish = false

[dependencies]
chrono = "0.4"
clap = { version = "4", features = ["derive"] }
crossterm = "0.28"
itertools = "0.13"
pnet = "0.35"
pnet_datalink = "0.35"
ratatui = "0.29"
ringbuf = "0.4"
tokio = { version = "1", features = ["full"] }
tracing = "0.1"

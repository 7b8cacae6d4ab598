[package]
name = "netwatch"
version = "0.1.0"
edition = "2021"
publish = false

[dependencies]
crossterm = "0.27"
pcap = "1"
pnet = "0.34"
ratatui = "0.26"

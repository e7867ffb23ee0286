[package]
name = "tuitop"
version = "0.1.0"
edition = "2021"
publish = false

[dependencies]
sysinfo = "*"
crossterm = "*"
ratatui = "*"
color-eyre = "*"

[package]
name = "lumi"
version = "0.1.0"
edition = "2021"
publish = false

[dependencies]
clap = "=2.34.0"
crossterm = "=0.29.0"
dirs = "=2.0.2"
lazy_static = "=1.4.0"
whoami = "=0.5.3"
winapi = "=0.3.9"
yansi = "=0.5.1"

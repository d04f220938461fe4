[package]
name = "rcowsay"
version = "0.1.0"
edition = "2021"
publish = false

[dependencies]
atty = "=0.2.14"
base64 = "=0.21.7"
clap = { version = "=4.6.7", features = ["derive"] }
console = "=0.15.11"
crossterm = "=0.27.0"
libc = "=0.2.191"
png = "=0.17.16"
rand = "=0.8.8"
rust-embed = { version = "=8.13.0", features = ["interpolate-folder-path"] }

[package]
name = "warp_ssh_manager"
version = "0.1.0"
edition = "2021"
publish = false

[dependencies]
shell-escape = "=0.1.5"
anyhow = "=1.0.104"
dirs = "=7.0.0"
log = "0.4"

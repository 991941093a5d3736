[package]
name = "carbon"
version = "0.1.0"
edition = "2021"
publish = false

[dependencies]
nix = { version = "=0.31.3", features = ["event", "fs", "socket", "uio"] }
quick-xml = "=0.42.0"
proc-macro2 = "=1.0.107"
quote = "=1.0.47"
convert_case = "=0.12.0"
log = "=0.4.34"
env_logger = "=0.11.11"

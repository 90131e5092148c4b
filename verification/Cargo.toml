[package]
name = "revtag"
version = "0.1.0"
edition = "2021"
publish = false

[dependencies]
anyhow = "=1.0.104"
bio = "=4.2.2"
env_logger = "=0.11.11"
hts-sys = { version = "=2.1.1", default-features = false }
log = "=0.4.34"
proglog = "=0.4.0"
rust-htslib = { version = "=0.46.0", default-features = false }
structopt = "=0.3.26"

[package]
name = "cargo_install_upgrade"
version = "1.0.15"
edition = "2021"
publish = false

[dependencies]
semver = "1"
clap = "4"
dirs = "*"
log = "*"
env_logger = "*"
tempdir = "0.3"

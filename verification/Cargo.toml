[package]
name = "imag"
version = "0.1.0"
edition = "2021"
publish = false

[dependencies]
toml = "0.5"
regex = "1"
semver = "1"
clap = "2"
log = "0.4"
filters = "*"
interactor = "*"
xdg-basedir = "*"

[package]
name = "cap"
version = "0.1.0"
edition = "2021"
publish = false

[dependencies]
anyhow = "1"
clap = { version = "4", features = ["derive"] }
crates-index = "=0.19.13"
crates-io = "0.39"
curl = "0.4"
home = "*"
indicatif = "*"
log = "*"
owo-colors = "*"
rayon = "1"
regex = "1"
semver = "=1.0.28"
termion = "*"
textwrap = "*"

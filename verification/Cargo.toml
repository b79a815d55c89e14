[package]
name = "arc"
version = "0.1.0"
edition = "2021"
publish = false

[dependencies]
anyhow = "*"
chrono = "*"
clap = "*"
exitcode = "*"
fern = "*"
log = "*"
niffler = "*"
rayon = "*"

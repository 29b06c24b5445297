[package]
name = "multiparse"
version = "0.1.0"
edition = "2021"
publish = false

[dependencies]
anyhow = "1"
clap = { version = "4", features = ["derive"] }
crossbeam-channel = "0.5"
csv = "1"
flate2 = "1"
memchr = "2"
num_cpus = "1"
regex = "1"
serde_json = "1"
time = { version = "0.3", features = ["formatting", "parsing"] }

[package]
name = "jrni"
version = "0.1.0"
edition = "2021"
publish = false

[dependencies]
serde_yaml = "*"
chrono = "*"
clap = "*"
dirs = "*"
num_cpus = "*"
threadpool = "*"
walkdir = "*"

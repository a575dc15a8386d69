[package]
name = "git_vanity_hash"
version = "0.1.0"
edition = "2021"
publish = false

[dependencies]
sha1 = "0.10"
num_cpus = "1"

[package]
name = "secure_classifier"
version = "0.1.0"
edition = "2021"
publish = false

[dependencies]
nix = { version = "0.29", features = ["mount", "sched", "process", "fs", "signal"] }
libseccomp = "0.3"

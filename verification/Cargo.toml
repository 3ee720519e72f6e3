[package]
name = "coop_sched"
version = "0.1.0"
edition = "2021"
publish = false

[dependencies]
fringe = "*"
spin = "*"

[package]
name = "reconcile"
version = "0.1.0"
edition = "2021"
publish = false

[dependencies]
calamine = "*"
chrono = "0.4"
clap = "*"
console = "*"
guid-create = "*"

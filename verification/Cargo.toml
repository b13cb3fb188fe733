[package]
name = "tartiflette"
version = "0.1.0"
edition = "2021"
publish = false

[dependencies]
clap = "2.34"
kvm-bindings = "*"
kvm-ioctls = "*"

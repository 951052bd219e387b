[package]
name = "bn_core"
version = "0.1.0"
edition = "2021"
publish = false

[dependencies]
num-bigint = "0.4"
num-integer = "0.1"
num-traits = "0.2"
glass_pumpkin = "1"
rand = "0.8"
digest = "0.10"
serde = "1"
zeroize = "1"

[package]
name = "dex"
version = "0.1.0"
edition = "2021"
publish = false

[dependencies]
orml-traits = "0.1.1"
orml-utilities = "=0.1.1"
sp-runtime = "=2.0.1"
substrate-bip39 = "=0.4.2"
syn = "=1.0.60"

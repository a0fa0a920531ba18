[package]
name = "propspace"
version = "0.1.0"
edition = "2021"
publish = false

[dependencies]
ic-cdk = "0.12"
candid = "0.10"
serde = "1"
serde_derive = "1"
bincode = "1"

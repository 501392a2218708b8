[package]
name = "netbricks"
version = "0.1.0"
edition = "2021"
publish = false

[dependencies]
hex = "=0.3.2"
serde = "=1.0.229"
libc = "=0.2.191"
fallible-iterator = "=0.2.0"
proptest = "=0.9.6"
fnv = "=1.0.7"

[package]
name = "creature_sim"
version = "0.1.0"
edition = "2021"
publish = false

[dependencies]
crossbeam = "0.8"
indexmap = "2"
nohash-hasher = "0.2"
rand = "0.8"
seahash = "4"

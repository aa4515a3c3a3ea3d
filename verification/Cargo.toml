[package]
name = "roguelike_core"
version = "0.1.0"
edition = "2021"
publish = false

[dependencies]
rand = "0.8"
rand_seeder = "0.2"
euclid = "0.22"
hecs = "0.10"
shrev = "1.1"

[package]
name = "dungeon_gen"
version = "0.1.0"
edition = "2021"

[dependencies]
fastrand = "2"
rand = "0.8"

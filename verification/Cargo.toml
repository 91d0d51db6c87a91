[package]
name = "osu_replay_parser"
version = "0.1.0"
edition = "2021"
publish = false

[dependencies]
bitflags = "1"
lzma-rs = "0.3"
nom = "7"

[package]
name = "supershuckie_replay_recorder"
version = "0.1.0"
edition = "2021"
publish = false

[dependencies]
zstd = "*"
blake3 = "*"

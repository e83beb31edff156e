[package]
name = "snake_logic"
version = "0.1.0"
edition = "2021"
publish = false

[dependencies]
itertools = "*"
log = "*"
pathfinding = "*"
rurel = "*"
serde_json = "*"

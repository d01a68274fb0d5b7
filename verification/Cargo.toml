[package]
name = "rps_battle_royale"
version = "0.1.0"
edition = "2021"
publish = false

[dependencies]
npc-engine-core = "*"
npc-engine-utils = "*"
rand = "*"
ansi_term = "*"
env_logger = "*"
log = "*"

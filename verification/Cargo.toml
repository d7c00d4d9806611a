[package]
name = "effect_sync"
version = "0.1.0"
edition = "2021"
publish = false

[dependencies]
anyhow = "1"
bitflags = "2"
bytes = "1"
hashbrown = "0.15"
inventory = "0.3"
num-traits = "0.2"
shrev = "1"
specs = "0.20"
thiserror = "1"
uuid = "1"

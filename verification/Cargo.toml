[package]
name = "kvbench"
version = "0.1.0"
edition = "2021"
publish = false

[dependencies]
anyhow = "=1.0.104"
clap = { version = "=4.6.7", features = ["derive"] }
gabble = "=0.2.0"
grenad = { version = "=0.5.0", features = ["lz4"] }
heed = "=0.22.1"
indicatif = "=0.18.6"
memmap2 = "=0.9.11"
rand = "=0.9.5"
rayon = "=1.12.0"
roaring = "=0.11.5"

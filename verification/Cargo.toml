[package]
name = "spec_elf"
version = "0.1.0"
edition = "2021"
publish = false

[dependencies]
zstd = "0.13"
toml = "*"
anyhow = "1"

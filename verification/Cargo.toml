[package]
name = "compressed_intvec"
version = "0.1.0"
edition = "2021"
publish = false

[dependencies]
dsi-bitstream = "0.4"
mem_dbg = "*"

[dev-dependencies]
rand = "0.9"

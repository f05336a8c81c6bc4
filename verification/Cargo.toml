[package]
name = "parallel_processor"
version = "0.1.0"
edition = "2021"
publish = false

[dependencies]
lz4_flex = "*"
crossbeam = "*"
parking_lot = "*"
csv = "*"
rayon = "*"

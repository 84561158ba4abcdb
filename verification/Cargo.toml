[package]
name = "til_query"
version = "0.1.0"
edition = "2021"
publish = false

[dependencies]
bitvec = "1"
indexmap = "2"
textwrap = "0.16"

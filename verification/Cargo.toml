[package]
name = "entry_index"
version = "0.1.0"
edition = "2021"
publish = false

[dependencies]
tantivy = "*"
regex = "1"
log = "0.4"

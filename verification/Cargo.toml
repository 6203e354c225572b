[package]
name = "bst_merge"
version = "0.1.0"
edition = "2021"
publish = false

[dependencies]
criterion = "0.3"

[package]
name = "swf_tree"
version = "0.1.0"
edition = "2021"
publish = false

[dependencies]
serde = "*"
serde_json = "*"
swf-fixed = "*"

[package]
name = "bvh_anim_parser"
version = "0.1.0"
edition = "2021"
publish = false

[dependencies]
cgmath = "0.18"
regex = "1"

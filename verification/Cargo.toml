[package]
name = "spring_embed"
version = "0.1.0"
edition = "2021"
publish = false

[dependencies]
rand = "=0.8.8"
distances = "=1.8.0"
abd-clam = "=0.29.0"
glam = "=0.34.0"
csv = "=1.4.0"

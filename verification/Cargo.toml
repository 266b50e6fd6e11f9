[package]
name = "whimsy"
version = "0.1.0"
edition = "2021"
publish = false

[dependencies]
csv = "=1.4.0"
rayon = "=1.12.0"
geojson = "=1.0.0"

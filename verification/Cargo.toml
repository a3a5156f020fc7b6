[package]
name = "elenco"
version = "0.1.0"
edition = "2021"
publish = false

[dependencies]
rs-mois-dirty = "*"

[dev-dependencies]
float-cmp = "*"

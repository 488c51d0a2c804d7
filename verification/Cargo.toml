[package]
name = "mapgen"
version = "0.1.0"
edition = "2021"
publish = false

[dependencies]
rand = "*"
rand_seeder = "*"

[dev-dependencies]
rand_pcg = "*"

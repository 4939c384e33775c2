[package]
name = "room_cleaning"
version = "0.1.0"
edition = "2021"
publish = false

[dependencies]
clap = { version = "4", features = ["derive"] }
json = "0.12"
rand = "0.8"
rand_seeder = "0.2"
rand_xoshiro = "0.6"

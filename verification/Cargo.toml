[package]
name = "rsvp_core"
version = "0.1.0"
edition = "2021"
publish = false

[dependencies]
argon2 = "0.5"
chrono = "0.4"
hex = "0.4"
rand = "0.8"

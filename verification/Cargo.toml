[package]
name = "digital_duration_nom"
version = "0.1.0"
edition = "2021"
publish = false

[dependencies]
nom = "7"
serde = "1"

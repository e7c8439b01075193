[package]
name = "solar_system_sim"
version = "0.1.0"
edition = "2021"
publish = false

[dependencies]
anise = "=0.10.6"
anyhow = "1"
hifitime = "=4.3.1"
image = { version = "=0.25.10", default-features = false, features = ["gif"] }
nyx-space = "=2.6.0"
rayon = "1"

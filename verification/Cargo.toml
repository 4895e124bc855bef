[package]
name = "trainsim"
version = "0.1.0"
edition = "2021"
publish = false

[dependencies]
chrono = "=0.4.45"
env_logger = "=0.11.11"
log = "=0.4.34"
lp-modeler = { version = "=0.5.0", features = ["minilp"] }
minilp = "=0.2.2"

[package]
name = "air_soundness"
version = "0.1.0"
edition = "2021"
publish = false

[dependencies]
z3 = "*"

[dev-dependencies]
p3-baby-bear = "*"
p3-field = "*"

[package]
name = "yaml_cleaner"
version = "0.1.0"
edition = "2021"
publish = false

[dependencies]
yaml-rust2 = "*"
hashlink = "*"
rand = "0.8"
rand_distr = "0.4"
serde_json = "1"
phf = { version = "0.11", features = ["macros"] }

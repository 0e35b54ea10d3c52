[package]
name = "rs_aggregate"
version = "0.1.0"
edition = "2021"
publish = false

[dependencies]
ipnet = "2"
rayon = "1"
clap = { version = "4", features = ["derive"] }
clio = { version = "0.3", features = ["clap-parse"] }

[package]
name = "rng-query"
version = "0.1.0"
edition = "2021"
publish = false

[dependencies]
rand = "0.8"
rand_pcg = "0.3"
regex = "1"
thiserror = "1"
owo-colors = "4"
anstream = "0.6"
clap = { version = "4", features = ["cargo"] }

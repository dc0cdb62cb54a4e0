[package]
name = "minipython"
version = "0.1.0"
edition = "2021"
publish = false

[dependencies]
indexmap = "1"
clap = "2"

[dev-dependencies]
pom = "3"

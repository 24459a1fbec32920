[package]
name = "candidate_selector"
version = "0.1.0"
edition = "2021"
publish = false

[dependencies]
itertools = "0.14"
pubgrub = "0.3"
tracing = "0.1"

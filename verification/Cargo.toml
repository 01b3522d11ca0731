[package]
name = "task_kit"
version = "0.1.0"
edition = "2021"
publish = false

[dependencies]
rand = "0.4"
num_cpus = "1"
futures = "0.1"

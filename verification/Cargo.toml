[package]
name = "olympian"
version = "0.1.0"
edition = "2021"
publish = false

[dependencies]
rstar = "0.12"
faer = "0.19"
thiserror = "1.0"
chronoutil = "0.2"

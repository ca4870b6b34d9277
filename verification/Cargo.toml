[package]
name = "docker_volume_backup"
version = "0.1.0"
edition = "2021"
publish = false

[dependencies]
flate2 = "1"
tar = "0.4"
structopt = "0.3"

[package]
name = "git_local_ignore"
version = "0.1.0"
edition = "2021"
publish = false

[dependencies]
pathdiff = "*"
clap = "3"
clap_generate = "3"
colored = "*"
dialoguer = "*"

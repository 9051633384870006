[package]
name = "sphinx_lang"
version = "0.1.0"
edition = "2021"
publish = false

[dependencies]
string-interner = "0.14"
clap = "3"
env_logger = "0.9"

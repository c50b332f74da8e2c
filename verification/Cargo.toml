[package]
name = "home_mangler"
version = "0.1.0"
edition = "2021"
publish = false

[dependencies]
camino = { version = "*", features = ["serde1"] }
clap = { version = "*", features = ["derive", "env"] }
command-error = "*"
directories = "*"
dirs = "*"
gethostname = "*"
itertools = "*"
miette = "*"
owo-colors = { version = "*", features = ["supports-colors"] }
path-absolutize = "*"
serde = { version = "*", features = ["derive"] }
serde_json = "*"
shell-words = "*"
tap = "*"
toml = "*"
tracing = "*"
tracing-subscriber = { version = "*", features = ["env-filter"] }
walkdir = "*"
which = "*"

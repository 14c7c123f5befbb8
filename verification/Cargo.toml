[package]
name = "kurv"
version = "0.1.0"
edition = "2021"
publish = false

[dependencies]
anyhow = "1"
chrono = { version = "0.4", features = ["serde"] }
cli-table = "*"
command-group = "*"
crossterm = "*"
form_urlencoded = "1"
htmlparser = "*"
indoc = "2"
log = "0.4"
pico-args = "0.5"
regex-lite = "0.1"
serde = { version = "1", features = ["derive"] }
serde_json = "1"
serde-saphyr = "*"
serde_yaml = "0.9"
strum = "*"
strum_macros = "*"
thiserror = "*"
velcro = "*"

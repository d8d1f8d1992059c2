[package]
name = "mdbook_inplace_notes"
version = "0.1.0"
edition = "2021"
publish = false

[dependencies]
pulldown-cmark = "*"
mdbook-preprocessor = "*"
clap = "*"
env_logger = "*"
log = "*"
serde_json = "*"

[dev-dependencies]
regex = "*"

[package]
name = "timsync"
version = "0.1.0"
edition = "2021"
publish = false

[dependencies]
anyhow = "1"
clap = { version = "4", features = ["derive"] }
console = "0.15"
dialoguer = "0.11"
futures = "0.3"
glob = "=0.3.4"
handlebars = { version = "6", features = ["script_helper"] }
handlebars_misc_helpers = { version = "=0.17.0", default-features = false }
indicatif = "0.17"
markdown = "=1.0.0"
nanoid = "=0.4.0"
path-absolutize = "3"
rand = "=0.8.8"
reqwest = { version = "0.12", default-features = false, features = ["cookies", "json"] }
serde = { version = "1", features = ["derive"] }
serde_json = "1"
serde_yaml = "0.9"
sha1 = "=0.10.7"
simplelog = { version = "0.12", features = ["paris"] }
thiserror = "1"
tokio = { version = "1", features = ["rt-multi-thread", "macros"] }
toml = "0.8"
url = "=2.5.8"
walkdir = "2"

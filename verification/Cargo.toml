[package]
name = "minepkg"
version = "0.1.0"
edition = "2021"
publish = false

[dependencies]
app_dirs2 = "=2.5.5"
bzip2 = "0.6"
clap = "=2.34.0"
console = "=0.15.11"
indicatif = "=0.17.11"
prettytable-rs = "=0.10.0"
rayon = "=1.12.0"
reqwest = { version = "=0.12.28", default-features = false, features = ["blocking", "rustls-tls"] }
semver = "=1.0.28"
serde = { version = "=1.0.229", features = ["derive"] }
serde_json = "=1.0.154"
snap = "=1.1.2"
toml_edit = "=0.22.27"
version-compare = "=0.2.1"

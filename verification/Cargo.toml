[package]
name = "replacer"
version = "0.1.0"
edition = "2021"
publish = false

[dependencies]
regex = "*"
difference = "2"
colored = "*"
chrono = "*"
git2 = "*"
toml = "*"
serde = { version = "*", features = ["derive"] }
structopt = "*"

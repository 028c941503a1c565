[package]
name = "repodoc"
version = "0.1.0"
edition = "2021"
publish = false

[dependencies]
glob = "0.3"
serde_json = "1"
syntect = { version = "5", default-features = false, features = ["default-fancy"] }
git2 = "*"
indicatif = "*"

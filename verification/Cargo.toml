[package]
name = "rew"
version = "0.1.0"
edition = "2021"
publish = false

[dependencies]
anstream = "0.6"
anyhow = "1"
bstr = "1"
clap = { version = "4", features = ["derive", "env"] }
derive_more = { version = "*", features = ["display", "is_variant"] }
fs_extra = "1"
indoc = "2"
lazy_static = "1"
regex = "1"
termcolor = "1"
which = "*"

[package]
name = "pavexc"
version = "0.1.0"
edition = "2021"
publish = false

[dependencies]
matchit = "0.8"
indexmap = "2"
syn = { version = "2", features = ["full"] }
quote = "1"
proc-macro2 = "1"
darling = "0.20"
anyhow = "1"
thiserror = "1"
guppy = "0.17"
cargo-manifest = "*"
bimap = "0.6"

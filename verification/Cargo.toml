[package]
name = "darwin_rs"
version = "0.1.0"
edition = "2021"
publish = false

[dependencies]
rand = "0.8"
nanorand = "0.7"
node_crunch = "*"
log = "0.4"
simplelog = "*"
structopt = "0.3"
thiserror = "1"

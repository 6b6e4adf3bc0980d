[package]
name = "exa"
version = "0.4.0"
edition = "2021"
publish = false

[dependencies]
unicode-width = "*"
users = "*"
glob = "*"
git2 = { version = "*", default-features = false }
clap = "*"
libc = "*"
num_cpus = "*"
scoped_threadpool = "*"

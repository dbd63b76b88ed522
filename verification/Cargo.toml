[package]
name = "basespace_dl"
version = "0.1.0"
edition = "2021"
publish = false

[dependencies]
md5 = "*"
strsim = "*"
serde = { version = "*", features = ["derive"] }
clap = "*"
console = "*"
dirs = "*"
toml = "*"
regex = "*"
reqwest = { version = "*", default-features = false, features = ["blocking", "json", "rustls-tls"] }
tokio = { version = "*", features = ["rt-multi-thread", "macros"] }
futures = "*"
indicatif = "*"
tabwriter = "*"
termcolor = "*"
number_prefix = "*"
crossbeam-channel = "*"
rayon = "*"
log = "*"
env_logger = "*"
text_io = "*"

[package]
name = "nest"
version = "0.1.0"
edition = "2021"
publish = false

[dependencies]
regex = "1"
indexmap = "2"
chrono = "0.4"
sha2 = "0.10"
clap = "4"
clap_complete = "4"
ctrlc = "3"
glob = "0.3"
notify = "6"
serde_json = "1"
ureq = "3"
crossterm = "0.28"
ratatui = "0.29"
dirs = "5"

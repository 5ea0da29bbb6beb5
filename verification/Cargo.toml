[package]
name = "languagetool-rust"
version = "0.1.0"
edition = "2021"
publish = false

[dependencies]
annotate-snippets = { version = "=0.9.2", features = ["color"] }
clap = { version = "=4.6.7", features = ["derive", "env"] }
clap_complete = "=4.6.11"
clap-verbosity-flag = "*"
ego-tree = "=0.11.1"
is-terminal = "=0.4.17"
log = "*"
pretty_env_logger = "*"
pulldown-cmark = "=0.10.3"
reqwest = { version = "=0.13.5", default-features = false, features = ["form", "json", "query"] }
scraper = "=0.29.0"
serde = { version = "=1.0.229", features = ["derive"] }
serde_json = "=1.0.154"
termcolor = "=1.4.1"
thiserror = "=2.0.21"
tokio = { version = "=1.54.1", features = ["macros", "rt-multi-thread"] }
typst-syntax = "=0.15.1"

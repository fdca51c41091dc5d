[package]
name = "jj_gh"
version = "0.1.0"
edition = "2021"
publish = false

[dependencies]
url = "=2.5.8"
shell-words = "=1.1.1"
toml = { version = "=1.1.8", features = ["preserve_order"] }
noyalib = "=0.0.58"
serde = { version = "=1.0.229", features = ["derive"] }
serde_json = "=1.0.154"
anyhow = "=1.0.104"
thiserror = "=2.0.21"
log = "=0.4.35"
clap = { version = "=4.6.7", features = ["derive"] }
clap_complete = "=4.6.11"
clap_complete_nushell = "=4.6.2"
tokio = { version = "=1.54.1", features = ["full"] }
crossterm = "=0.29.0"
tempfile = "=3.27.0"
flexi_logger = "=0.31.10"
anstyle = "=1.0.14"
secrecy = "=0.10.3"
figment = { version = "=0.10.19", features = ["toml", "env"] }
octocrab = "=0.54.9"
graphql_client = "=0.16.0"
http = "=1.5.0"
futures = "=0.3.34"

[package]
name = "helios"
version = "0.1.0"
edition = "2021"
publish = false

[dependencies]
rowan = "0.15"
unicode-xid = "0.2"
colored = "2"
textwrap = { version = "0.16", features = ["terminal_size"] }
serde = { version = "1", features = ["derive"] }
serde_json = "1"
lsp-types = "0.94"
flume = "0.11"
log = "0.4"
env_logger = "0.10"
drop_bomb = "0.1"
text-size = "1"

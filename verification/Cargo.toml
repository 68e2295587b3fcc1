[package]
name = "entry_view_state"
version = "0.1.0"
edition = "2021"
publish = false

[dependencies]
agent-client-protocol = "3.6"
